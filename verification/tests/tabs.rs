use rio_sessions::tabs::{
    single_tab, title_update_due, ContextManager, TabConfig, TabEvent, DEFAULT_CONTEXT_CAPACITY,
};

fn config() -> TabConfig {
    TabConfig { is_native: false, cwd: false, working_dir: None, autosave: false }
}

fn start_with(capacity: usize, rich_text_id: usize) -> ContextManager {
    ContextManager::start(capacity, config(), 0, rich_text_id)
}

fn start(capacity: usize) -> ContextManager {
    start_with(capacity, 0)
}

/// Adds a tab whose terminal is the next one that was made.
fn add(cm: &mut ContextManager, redirect: bool, rich_text_id: usize) -> Option<TabEvent> {
    let route = cm.len();
    cm.add_context(redirect, rich_text_id, None, Some(route))
}

#[test]
fn test_capacity() {
    let context_manager = start(5);
    assert_eq!(context_manager.capacity(), 5);

    let mut context_manager = start(5);
    context_manager.increase_capacity(3);
    assert_eq!(context_manager.capacity(), 8);
}

#[test]
fn test_add_context() {
    let mut context_manager = start(5);
    assert_eq!(context_manager.capacity(), 5);
    assert_eq!(context_manager.current_index(), 0);

    let should_redirect = false;
    add(&mut context_manager, should_redirect, 0);
    assert_eq!(context_manager.capacity(), 5);
    assert_eq!(context_manager.current_index(), 0);

    let should_redirect = true;
    add(&mut context_manager, should_redirect, 0);
    assert_eq!(context_manager.capacity(), 5);
    assert_eq!(context_manager.current_index(), 2);
}

#[test]
fn test_add_context_start_with_capacity_limit() {
    let mut context_manager = start(3);
    assert_eq!(context_manager.capacity(), 3);
    assert_eq!(context_manager.current_index(), 0);
    let should_redirect = false;
    add(&mut context_manager, should_redirect, 0);
    assert_eq!(context_manager.len(), 2);
    add(&mut context_manager, should_redirect, 0);
    assert_eq!(context_manager.len(), 3);

    for _ in 0..20 {
        add(&mut context_manager, should_redirect, 0);
    }

    assert_eq!(context_manager.len(), 3);
    assert_eq!(context_manager.capacity(), 3);
}

#[test]
fn test_set_current() {
    let mut context_manager = start(8);
    let should_redirect = true;

    add(&mut context_manager, should_redirect, 0);
    assert_eq!(context_manager.current_index(), 1);
    context_manager.set_current(0);
    assert_eq!(context_manager.current_index(), 0);
    assert_eq!(context_manager.len(), 2);
    assert_eq!(context_manager.capacity(), 8);

    let should_redirect = false;
    add(&mut context_manager, should_redirect, 0);
    add(&mut context_manager, should_redirect, 0);
    context_manager.set_current(3);
    assert_eq!(context_manager.current_index(), 3);

    context_manager.set_current(8);
    assert_eq!(context_manager.current_index(), 3);
}

fn set_tab_title(cm: &mut ContextManager, index: usize, content: &str) {
    cm.set_title(index, content.to_string());
}

fn tab_titles(cm: &ContextManager) -> Vec<String> {
    (0..cm.len())
        .map(|i| cm.title(i).unwrap().clone())
        .collect()
}

#[test]
fn test_title_follows_tab_move() {
    let mut cm = start(5);
    for _ in 0..3 {
        add(&mut cm, false, 0);
    }
    assert_eq!(cm.len(), 4);
    for (i, label) in ["a", "b", "c", "d"].iter().enumerate() {
        set_tab_title(&mut cm, i, label);
    }

    // Drag tab 1 to slot 3 (rotate). The title must track the moved
    // tab immediately, without waiting on the next update_titles tick.
    cm.set_current(1);
    cm.move_current_tab_to(3);

    assert_eq!(tab_titles(&cm), ["a", "c", "d", "b"]);
    assert_eq!(cm.current().title, "b");
}

#[test]
fn test_title_follows_tab_swap() {
    let mut cm = start(5);
    for _ in 0..3 {
        add(&mut cm, false, 0);
    }
    for (i, label) in ["a", "b", "c", "d"].iter().enumerate() {
        set_tab_title(&mut cm, i, label);
    }

    // Swap current (0) with its neighbor (1).
    cm.set_current(0);
    cm.move_current_to_next();

    assert_eq!(tab_titles(&cm), ["b", "a", "c", "d"]);
}

#[test]
fn test_custom_title_follows_tab_move() {
    let mut cm = start(5);
    for _ in 0..3 {
        add(&mut cm, false, 0);
    }
    cm.set_custom_title(2, Some("work".to_string()));

    // Move tab 1 → 3 (rotate): the override on tab 2 shifts to slot 1,
    // with no remap bookkeeping.
    cm.set_current(1);
    cm.move_current_tab_to(3);

    assert_eq!(cm.custom_title(1).map(String::as_str), Some("work"));
    assert_eq!(cm.custom_title(2), None);

    // Clearing with None removes the override.
    cm.set_custom_title(1, None);
    assert_eq!(cm.custom_title(1), None);
}

#[test]
fn test_custom_color_follows_tab_move() {
    let mut cm = start(5);
    for _ in 0..3 {
        add(&mut cm, false, 0);
    }
    let red = [1.0f32, 0.0, 0.0, 1.0].map(f32::to_bits);
    cm.set_custom_color(2, Some(red));

    // Move tab 1 → 3 (rotate): the color on tab 2 shifts to slot 1.
    cm.set_current(1);
    cm.move_current_tab_to(3);

    assert_eq!(cm.custom_color(1), Some(red));
    assert_eq!(cm.custom_color(2), None);

    cm.set_custom_color(1, None);
    assert_eq!(cm.custom_color(1), None);
}

#[test]
fn test_switch_to_next() {
    let mut context_manager = start(5);
    let should_redirect = false;

    add(&mut context_manager, should_redirect, 0);
    add(&mut context_manager, should_redirect, 0);
    add(&mut context_manager, should_redirect, 0);
    add(&mut context_manager, should_redirect, 0);
    add(&mut context_manager, should_redirect, 0);
    assert_eq!(context_manager.len(), 5);
    assert_eq!(context_manager.current_index(), 0);

    context_manager.switch_to_next();
    assert_eq!(context_manager.current_index(), 1);
    context_manager.switch_to_next();
    assert_eq!(context_manager.current_index(), 2);
    context_manager.switch_to_next();
    assert_eq!(context_manager.current_index(), 3);
    context_manager.switch_to_next();
    assert_eq!(context_manager.current_index(), 4);
    context_manager.switch_to_next();
    assert_eq!(context_manager.current_index(), 0);
    context_manager.switch_to_next();
    assert_eq!(context_manager.current_index(), 1);
}

#[test]
fn test_move_current_to_next() {
    let mut context_manager = start_with(5, 1);
    let should_redirect = false;

    add(&mut context_manager, should_redirect, 0);
    add(&mut context_manager, should_redirect, 0);
    add(&mut context_manager, should_redirect, 0);
    add(&mut context_manager, should_redirect, 0);

    assert_eq!(context_manager.len(), 5);
    assert_eq!(context_manager.current_index(), 0);
    assert_eq!(context_manager.current().rich_text_id, 1);

    context_manager.move_current_to_next();
    assert_eq!(context_manager.current_index(), 1);
    assert_eq!(context_manager.current().rich_text_id, 1);

    context_manager.move_current_to_next();
    assert_eq!(context_manager.current_index(), 2);
    assert_eq!(context_manager.current().rich_text_id, 1);

    context_manager.move_current_to_next();
    assert_eq!(context_manager.current_index(), 3);
    assert_eq!(context_manager.current().rich_text_id, 1);

    context_manager.move_current_to_next();
    assert_eq!(context_manager.current_index(), 4);
    assert_eq!(context_manager.current().rich_text_id, 1);

    context_manager.move_current_to_next();
    assert_eq!(context_manager.current_index(), 0);
    assert_eq!(context_manager.current().rich_text_id, 1);

    context_manager.move_current_to_next();
    assert_eq!(context_manager.current_index(), 1);
    assert_eq!(context_manager.current().rich_text_id, 1);
}

#[test]
fn test_move_current_to_prev() {
    let mut context_manager = start_with(5, 1);
    let should_redirect = false;

    add(&mut context_manager, should_redirect, 0);
    add(&mut context_manager, should_redirect, 0);
    add(&mut context_manager, should_redirect, 0);
    add(&mut context_manager, should_redirect, 0);

    assert_eq!(context_manager.len(), 5);
    assert_eq!(context_manager.current_index(), 0);
    assert_eq!(context_manager.current().rich_text_id, 1);

    context_manager.move_current_to_prev();
    assert_eq!(context_manager.current_index(), 4);
    assert_eq!(context_manager.current().rich_text_id, 1);

    context_manager.move_current_to_prev();
    assert_eq!(context_manager.current_index(), 3);
    assert_eq!(context_manager.current().rich_text_id, 1);

    context_manager.move_current_to_prev();
    assert_eq!(context_manager.current_index(), 2);
    assert_eq!(context_manager.current().rich_text_id, 1);

    context_manager.move_current_to_prev();
    assert_eq!(context_manager.current_index(), 1);
    assert_eq!(context_manager.current().rich_text_id, 1);

    context_manager.move_current_to_prev();
    assert_eq!(context_manager.current_index(), 0);
    assert_eq!(context_manager.current().rich_text_id, 1);

    context_manager.move_current_to_prev();
    assert_eq!(context_manager.current_index(), 4);
    assert_eq!(context_manager.current().rich_text_id, 1);
}

#[test]
fn test_move_current_tab_to() {
    let mut context_manager = start(5);
    let should_redirect = false;

    add(&mut context_manager, should_redirect, 1);
    add(&mut context_manager, should_redirect, 2);
    add(&mut context_manager, should_redirect, 3);
    add(&mut context_manager, should_redirect, 4);

    let order = |cm: &mut ContextManager| -> Vec<usize> {
        (0..5)
            .map(|i| {
                cm.set_current(i);
                cm.current().rich_text_id
            })
            .collect()
    };

    // Multi-slot jump forward: tabs in between shift left by one.
    context_manager.set_current(1);
    context_manager.move_current_tab_to(3);
    assert_eq!(context_manager.current_index(), 3);
    assert_eq!(context_manager.current().rich_text_id, 1);
    assert_eq!(order(&mut context_manager), vec![0, 2, 3, 1, 4]);

    // Multi-slot jump backward: tabs in between shift right by one.
    context_manager.set_current(3);
    context_manager.move_current_tab_to(0);
    assert_eq!(context_manager.current_index(), 0);
    assert_eq!(context_manager.current().rich_text_id, 1);
    assert_eq!(order(&mut context_manager), vec![1, 0, 2, 3, 4]);

    // No-op cases: same index and out-of-bounds target.
    context_manager.set_current(2);
    context_manager.move_current_tab_to(2);
    assert_eq!(context_manager.current_index(), 2);
    context_manager.move_current_tab_to(5);
    assert_eq!(context_manager.current_index(), 2);
    assert_eq!(order(&mut context_manager), vec![1, 0, 2, 3, 4]);
}

#[test]
fn a_last_tab_closes_the_window() {
    let mut cm = start(5);
    assert!(matches!(cm.close_current_context(), Some(TabEvent::CloseWindow)));
    assert_eq!(cm.len(), 1);
    add(&mut cm, false, 11);
    add(&mut cm, false, 12);
    cm.set_current(2);
    assert!(cm.close_current_context().is_none());
    assert_eq!((cm.len(), cm.current_index()), (2, 1));
    assert_eq!(cm.current().rich_text_id, 11);
}

#[test]
fn a_shell_that_ends_takes_its_pane_or_its_tab() {
    let mut cm = start(5);
    add(&mut cm, true, 1);
    assert!(cm.split(2, 1, Some(9)));
    assert_eq!((cm.current().route_id, cm.current_grid().panes.len()), (9, 2));
    assert!(!cm.should_close_context_manager(9, 0));
    assert_eq!((cm.len(), cm.current().route_id), (2, 1));
    assert!(!cm.should_close_context_manager(1, 0));
    assert_eq!((cm.len(), cm.current().route_id), (1, 0));
    assert!(cm.should_close_context_manager(0, 0));
    assert_eq!(cm.len(), 0);
}

#[test]
fn other_tabs_are_closed() {
    let mut cm = start(5);
    for id in 1..4 {
        add(&mut cm, false, id);
    }
    cm.set_current(2);
    cm.close_unfocused_tabs();
    assert_eq!((cm.len(), cm.current_index(), cm.current().rich_text_id), (1, 0, 2));
}

#[test]
fn the_keyboard_goes_from_pane_to_pane_to_tab() {
    let mut cm = start(5);
    add(&mut cm, false, 1);
    assert!(cm.split(7, 1, Some(5)));
    cm.select_pane_by_order(0);
    assert_eq!(cm.current_route(), 0);
    cm.switch_to_next_split_or_tab();
    assert_eq!((cm.current_index(), cm.current_route()), (0, 5));
    cm.switch_to_next_split_or_tab();
    assert_eq!((cm.current_index(), cm.current_route()), (1, 1));
    cm.switch_to_prev_split_or_tab();
    assert_eq!((cm.current_index(), cm.current_route()), (0, 5));
    cm.select_pane_by_order(9);
    assert_eq!(cm.current_route(), 5);
}

#[test]
fn native_tabs_are_left_to_the_system() {
    let native = TabConfig { is_native: true, ..config() };
    let mut cm = ContextManager::start(5, native, 0, 0);
    let event = cm.add_context(true, 0, Some("/w".into()), Some(1));
    assert!(matches!(event, Some(TabEvent::CreateNativeTab(Some(d))) if d == "/w"));
    assert_eq!(cm.len(), 1);
    assert!(matches!(cm.switch_to_next(), Some(TabEvent::SelectNativeTabNext)));
    assert!(matches!(cm.switch_to_prev(), Some(TabEvent::SelectNativeTabPrev)));
    assert!(matches!(cm.select_tab(3), Some(TabEvent::SelectNativeTabByIndex(3))));
    assert!(matches!(cm.select_last_tab(), Some(TabEvent::SelectNativeTabLast)));
}

#[test]
fn tabs_are_selected_by_their_place() {
    let mut cm = start(5);
    add(&mut cm, false, 1);
    add(&mut cm, false, 2);
    assert!(cm.select_last_tab().is_none());
    assert_eq!(cm.current_index(), 2);
    assert!(cm.select_tab(1).is_none());
    assert_eq!(cm.current_index(), 1);
    cm.switch_to_prev();
    cm.switch_to_prev();
    assert_eq!(cm.current_index(), 2);
    assert_eq!(cm.keep_only_active_context_visible(), [false, false, true]);
    assert!(cm.tab(3).is_none());
    assert_eq!(cm.tab(1).unwrap().panes[0].rich_text_id, 1);
}

#[test]
fn a_tab_that_could_not_be_made_is_not_added() {
    let mut cm = start(2);
    assert!(cm.add_context(true, 1, None, None).is_none());
    assert_eq!(cm.len(), 1);
    assert_eq!(cm.add_context_attach(1, Err("gone".into())).err().as_deref(), Some("gone"));
    assert!(cm.has_room());
    assert!(cm.add_context_attach(1, Ok(1)).is_ok());
    assert_eq!((cm.len(), cm.current_index()), (2, 1));
    assert!(!cm.has_room());
    assert!(cm.add_context_attach(1, Ok(2)).is_err());
    assert!(!cm.add_context_with_dir(2, Some(3)));
    assert!(!cm.split(1, 0, None));
    let mut cm = start(2);
    assert!(cm.add_context_with_dir(4, Some(3)));
    assert_eq!(cm.tab(1).unwrap().panes[0].rich_text_id, 4);
}

#[test]
fn a_new_tab_starts_where_the_settings_say() {
    let conf = TabConfig { cwd: true, working_dir: Some("/conf".into()), ..config() };
    let cm = ContextManager::start(DEFAULT_CONTEXT_CAPACITY, conf, 0, 0);
    assert_eq!(cm.new_working_dir(Some("/front".into())).as_deref(), Some("/front"));
    assert_eq!(cm.new_working_dir(None).as_deref(), Some("/conf"));
    let conf = TabConfig { working_dir: Some("/conf".into()), autosave: true, ..config() };
    let cm = ContextManager::start(1, conf, 0, 0);
    assert_eq!(cm.new_working_dir(Some("/front".into())).as_deref(), Some("/conf"));
    assert!(cm.autosave_on_change());
    assert!(!start(1).autosave_on_change());
}

#[test]
fn titles_are_made_anew_now_and_then() {
    assert!(title_update_due(None));
    assert!(!title_update_due(Some(2000)));
    assert!(title_update_due(Some(2001)));
    assert_eq!(single_tab(3, 4).panes[0].route_id, 3);
}
