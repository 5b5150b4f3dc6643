use std::cell::Cell;
use std::rc::Rc;

use playground_ui::components::{UiElementComponent, UiInputComponent, UiTextComponent};
use playground_ui::elements::button::Button;
use playground_ui::ide::code_editor::CodeEditor;
use playground_ui::input::event::{EventHandled, Key};
use playground_ui::input::manager::{text_after_input, FlagChange, InputManager};
use playground_ui::layout::engine::LayoutEngine;
use playground_ui::rendering::batch_manager::{BatchStats, RenderBatchManager};
use playground_ui::rendering::text_renderer::FontAtlas;
use playground_ui::rendering::sdf::nearest_opposite_distances;
use playground_ui::rendering::render_data::MeshIndices;
use playground_ui::error::UiError;

#[test]
fn editor_insert_then_backspace_restores() {
    let mut e = CodeEditor::new().with_content("let x = 1;\nlet y;".to_string());
    e.move_cursor(0, 3);
    e.insert_text("z");
    assert_eq!(e.get_content(), "letz x = 1;\nlet y;");
    e.delete_char();
    assert_eq!(e.get_content(), "let x = 1;\nlet y;");
}

#[test]
fn editor_new_line_and_keys() {
    let mut e = CodeEditor::new().with_content("abcd".to_string());
    e.move_cursor(0, 2);
    assert_eq!(e.handle_key(Key::Enter), EventHandled::Yes);
    assert_eq!(e.get_content(), "ab\ncd");
    assert_eq!(e.handle_text_input("X"), EventHandled::Yes);
    assert_eq!(e.get_content(), "ab\nXcd");
    assert_eq!(e.handle_key(Key::F1), EventHandled::No);
}

#[test]
fn editor_vim_mode_gates_typing() {
    let mut e = CodeEditor::new().with_content("ab".to_string()).enable_vim_mode();
    assert_eq!(e.handle_text_input("x"), EventHandled::No);
    assert_eq!(e.get_content(), "ab");
    assert_eq!(e.handle_key(Key::I), EventHandled::Yes);
    assert_eq!(e.handle_text_input("x"), EventHandled::Yes);
    assert_eq!(e.get_content(), "xab");
    assert_eq!(e.handle_key(Key::Escape), EventHandled::Yes);
    assert_eq!(e.handle_text_input("y"), EventHandled::No);
}

#[test]
fn editor_read_only() {
    let mut e = CodeEditor::new().with_content("ab".to_string()).with_editable(false);
    e.insert_text("q");
    assert_eq!(e.get_content(), "ab");
    assert_eq!(e.handle_text_input("q"), EventHandled::No);
}

#[test]
fn input_focus_follows_presses() {
    let mut m = InputManager::new();
    assert_eq!(m.update_hover(Some(1)), FlagChange { handled: true, clear: None, set: Some(1) });
    assert_eq!(m.update_hover(Some(1)), FlagChange { handled: false, clear: None, set: None });
    assert_eq!(m.handle_mouse_down(Some(2)), FlagChange { handled: true, clear: None, set: Some(2) });
    assert_eq!(m.get_focused_element(), Some(2));
    assert_eq!(m.handle_mouse_down(Some(3)), FlagChange { handled: true, clear: Some(2), set: Some(3) });
    assert_eq!(m.click_target(Some(3)), Some(3));
    assert_eq!(m.click_target(Some(4)), None);
    assert!(m.handle_mouse_up());
    assert!(!m.handle_mouse_up());
    assert_eq!(m.handle_mouse_down(None), FlagChange { handled: false, clear: None, set: None });
}

#[test]
fn escape_drops_focus_of_input_elements() {
    let mut m = InputManager::new();
    assert!(!m.handle_key_down(Key::Escape, true).handled);
    m.handle_mouse_down(Some(7));
    assert!(!m.handle_key_down(Key::Escape, false).handled);
    assert_eq!(m.get_focused_element(), Some(7));
    assert_eq!(m.handle_key_down(Key::A, true), FlagChange { handled: true, clear: None, set: None });
    assert_eq!(m.handle_key_down(Key::Escape, true), FlagChange { handled: true, clear: Some(7), set: None });
    assert_eq!(m.get_focused_element(), None);
}

#[test]
fn typing_into_text_components() {
    let mut c = UiTextComponent::new("héllo".to_string());
    assert_eq!(text_after_input(&c, "x"), None);
    c.editable = true;
    c.cursor_position = 3;
    assert_eq!(text_after_input(&c, "€"), Some(("hé€llo".to_string(), 6)));
    c.cursor_position = 6;
    assert_eq!(text_after_input(&c, "!"), Some(("héllo!".to_string(), 7)));
}

#[test]
fn components_defaults() {
    let c = UiTextComponent::new("t".to_string());
    assert!(c.selectable && !c.editable);
    assert_eq!(c.cursor_position, 0);
    let i = UiInputComponent::default();
    assert!(!i.accepts_input && i.on_click.is_none() && i.tab_index.is_none());
    let e = UiElementComponent::new("button");
    assert_eq!(e.element_type, "button");
    assert!(e.visible && !e.focused && !e.hovered && !e.disabled);
    assert_eq!(e.id.len(), 36);
    assert_ne!(e.id, UiElementComponent::new("button").id);
    assert_eq!(e.id.len(), 36);
    assert!(e.id.chars().enumerate().all(|(i, c)| if [8, 13, 18, 23].contains(&i) { c == '-' } else { c.is_ascii_hexdigit() && !c.is_ascii_uppercase() }));
    let _engine = LayoutEngine::new();
}

#[test]
fn button_fires_on_release_after_press() {
    let clicks = Rc::new(Cell::new(0));
    let seen = clicks.clone();
    let mut b = Button::new("OK".to_string()).on_click(move || seen.set(seen.get() + 1));
    assert_eq!(b.text(), "OK");
    assert_eq!(b.kind_name(), "Button");
    assert_eq!(b.pointer_up(), EventHandled::Yes);
    assert_eq!(clicks.get(), 0);
    assert_eq!(b.pointer_down(), EventHandled::Yes);
    assert!(b.is_pressed() && b.is_dirty());
    b.mark_clean();
    assert_eq!(b.pointer_up(), EventHandled::Yes);
    assert_eq!(clicks.get(), 1);
    assert!(!b.is_pressed() && b.is_dirty());
    b.set_visible(false);
    assert!(!b.is_visible());
}

#[test]
fn batch_keeps_commands_at_the_limit() {
    let mut m: RenderBatchManager<u32> = RenderBatchManager::new();
    assert!(m.flush().is_none());
    for i in 0..998 {
        m.add_command(i);
    }
    m.add_commands(vec![998]);
    assert_eq!(m.get_stats().pending_commands, 999);
    m.add_command(999);
    assert_eq!(m.get_stats().pending_commands, 0);
    assert_eq!(m.get_stats().batch_commands, 1000);
    assert_eq!(m.flush().unwrap(), (0..1000).collect::<Vec<u32>>());
    assert_eq!(m.get_stats().batch_commands, 0);
    assert!(m.flush().is_none());
    m.add_commands(vec![1, 2, 3]);
    assert_eq!(m.get_stats().pending_commands, 3);
    assert_eq!(m.flush().unwrap(), vec![1, 2, 3]);
    m.add_command(4);
    m.clear();
    assert!(m.flush().is_none());
}

#[test]
fn frame_timing() {
    let mut m: RenderBatchManager<u8> = RenderBatchManager::new();
    assert_eq!(m.stats_after(0).target_frame_time, 16_000_000);
    assert!(!m.should_flush_after(15_999_999));
    assert!(m.should_flush_after(16_000_000));
    m.set_target_fps(30);
    assert_eq!(m.stats_after(0).target_frame_time, 33_000_000);
    let s = BatchStats { pending_commands: 101, batch_commands: 0, time_since_flush: 0, target_frame_time: 10 };
    assert!(s.is_ready_to_flush());
    let s = BatchStats { pending_commands: 100, batch_commands: 0, time_since_flush: 9, target_frame_time: 10 };
    assert!(!s.is_ready_to_flush());
    let s = BatchStats { pending_commands: 0, batch_commands: 0, time_since_flush: 10, target_frame_time: 10 };
    assert!(s.is_ready_to_flush());
    m.set_target_fps(2000);
    assert!(m.should_flush());
}

#[test]
fn glyph_packing() {
    let mut a = FontAtlas::new(4, 3);
    assert_eq!(a.texture_data.len(), 48);
    a.pack_glyph_data(1, 1, 2, 2, &[10, 20, 30]).unwrap();
    let px = |x: usize, y: usize| &a.texture_data[(y * 4 + x) * 4..(y * 4 + x) * 4 + 4];
    assert_eq!(px(1, 1), &[10, 10, 10, 10]);
    assert_eq!(px(2, 1), &[20, 20, 20, 20]);
    assert_eq!(px(1, 2), &[30, 30, 30, 30]);
    assert_eq!(px(2, 2), &[0, 0, 0, 0]);
    assert_eq!(px(0, 0), &[0, 0, 0, 0]);
    assert_eq!(px(3, 1), &[0, 0, 0, 0]);
    let before = a.texture_data.clone();
    match a.pack_glyph_data(3, 0, 2, 1, &[1, 1]) {
        Err(UiError::InvalidInput(m)) => assert_eq!(m, "Glyph exceeds atlas bounds"),
        other => panic!("unexpected {:?}", other),
    }
    assert_eq!(a.texture_data, before);
}

#[test]
fn nearest_opposite_pixels() {
    // 3x3 bitmap with one inside pixel in the middle.
    let bitmap = [0, 0, 0, 0, 255, 0, 0, 0, 0];
    let d = nearest_opposite_distances(&bitmap, 3, 3, 1);
    assert_eq!(d[4], Some(1));
    assert_eq!(d[0], Some(2));
    assert_eq!(d[1], Some(1));
    let d = nearest_opposite_distances(&bitmap, 3, 3, 0);
    assert!(d.iter().all(|x| x.is_none()));
    let all_out = [0u8; 4];
    assert!(nearest_opposite_distances(&all_out, 2, 2, 5).iter().all(|x| x.is_none()));
    let d = nearest_opposite_distances(&[255, 0, 0, 0, 0], 5, 1, 4);
    assert_eq!(d, vec![Some(1), Some(1), Some(4), Some(9), Some(16)]);
}

#[test]
fn mesh_indices_stay_in_range() {
    let mut a = MeshIndices::new();
    a.add_quad();
    assert_eq!(a.vertex_count(), 4);
    assert_eq!(a.indices(), &vec![0, 1, 2, 0, 2, 3]);
    let mut b = MeshIndices::new();
    b.add_quad();
    b.add_quad();
    a.merge(&b);
    assert_eq!(a.vertex_count(), 12);
    assert_eq!(&a.indices()[6..], &[4, 5, 6, 4, 6, 7, 8, 9, 10, 8, 10, 11]);
    assert!(a.indices().iter().all(|&i| i < a.vertex_count()));
}

#[test]
fn editor_reports_inputs_it_cannot_take() {
    let mut e = CodeEditor::new().with_content("a\u{e9}".to_string());
    assert!(e.can_insert("x"));
    assert!(e.can_handle_key(Key::Enter));
    e.move_cursor(0, 2);
    assert!(!e.can_insert("x"));
    assert!(!e.can_handle_text_input("x"));
    assert!(!e.can_handle_key(Key::Enter));
    assert!(e.can_handle_key(Key::F1));
    e.move_cursor(0, 1);
    assert!(e.can_insert("x"));
    assert!(!e.can_handle_key(Key::Backspace));
    let vim = CodeEditor::new().with_content("a\u{e9}".to_string()).enable_vim_mode();
    assert!(vim.can_handle_text_input("x"));
    assert_eq!(e.handle_scroll(), EventHandled::Yes);
}

#[test]
fn editor_typing_then_deleting_restores() {
    let mut e = CodeEditor::new().with_content("let x;\nfn f() {}".to_string());
    e.move_cursor(1, 3);
    e.insert_text("abc");
    assert_eq!(e.get_content(), "let x;\nfn abcf() {}");
    for _ in 0..3 {
        assert!(e.can_handle_key(Key::Backspace));
        e.delete_char();
    }
    assert_eq!(e.get_content(), "let x;\nfn f() {}");
    e.set_content("a\n\nb".to_string());
    assert_eq!(e.get_content(), "a\n\nb");
    e.set_content(String::new());
    assert_eq!(e.get_content(), "");
}
