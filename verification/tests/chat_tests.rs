use playground_ui::chat::chat_interface::{ActionType, ChatInterface, CodeBlock, MessageType};
use playground_ui::chat::code_context::CodeContext;
use playground_ui::chat::conversation_handler::{
    can_parse_lowered, detect_language, parse_lowered, ConversationHandler, ConversationRequest,
};
use playground_ui::element::ElementGraph;
use playground_ui::input::event::{EventHandled, Key};

const SOURCE: &str = "use std::fmt;\n\nfn helper() {\n    let x = 1;\n}\n\npub fn parse_message(msg: &str) {\n    if msg.is_empty() {\n        return;\n    }\n}\n";

fn handler_with_file(path: &str, content: &str) -> ConversationHandler {
    let mut h = ConversationHandler::new(ChatInterface::new(), ElementGraph::new());
    h.handle_request(ConversationRequest::SaveCode { file_path: path.to_string(), content: content.to_string() })
        .unwrap();
    h
}

fn last_message(h: &ConversationHandler) -> playground_ui::chat::chat_interface::ChatMessage {
    let chat = h.chat_interface();
    let all = chat.get_visible_messages(0, usize::MAX);
    (*all.last().unwrap()).clone()
}

#[test]
fn chat_enter_sends_input_line() {
    let mut c = ChatInterface::new();
    assert_eq!(c.handle_text_input("hi"), EventHandled::No);
    c.focus();
    assert_eq!(c.handle_text_input("hello"), EventHandled::Yes);
    assert_eq!(c.handle_key(Key::Backspace), EventHandled::Yes);
    assert_eq!(c.handle_key(Key::Enter), EventHandled::Yes);
    let msgs = c.get_visible_messages(0, 10);
    assert_eq!(msgs.len(), 1);
    assert_eq!(msgs[0].content, "hell");
    assert_eq!(msgs[0].message_type, MessageType::User);
    assert_eq!(c.handle_key(Key::A), EventHandled::No);
}

#[test]
fn chat_history_is_bounded() {
    let mut c = ChatInterface::new();
    for i in 0..1005 {
        c.add_user_message(format!("m{}", i));
    }
    let msgs = c.get_visible_messages(0, 2000);
    assert_eq!(msgs.len(), 1000);
    assert_eq!(msgs[0].content, "m5");
    assert_eq!(c.get_visible_messages(998, 10).len(), 2);
    assert_eq!(c.get_visible_messages(1000, 10).len(), 0);
}

#[test]
fn assistant_message_with_code_gets_actions() {
    let mut c = ChatInterface::new();
    let block = CodeBlock { id: 1, language: "rust".to_string(), content: "fn f() {}".to_string(), editable: true, focused_lines: None };
    c.add_assistant_message("code".to_string(), vec![block]);
    c.add_assistant_message("plain".to_string(), Vec::new());
    let msgs = c.get_visible_messages(0, 10);
    assert_eq!(msgs[0].context_actions.len(), 2);
    assert_eq!(msgs[0].context_actions[0].label, "Open in IDE");
    assert!(matches!(msgs[0].context_actions[0].action, ActionType::OpenInEditor));
    assert_eq!(msgs[0].context_actions[1].label, "Copy");
    assert!(msgs[1].context_actions.is_empty());
    c.clear_messages();
    assert!(c.get_visible_messages(0, 10).is_empty());
}

#[test]
fn find_function_in_file_counts_braces() {
    let ctx = CodeContext::new();
    let r = ctx.find_function_in_file(SOURCE, "parse_message").unwrap();
    assert_eq!((r.start, r.end), (6, 11));
    let r = ctx.find_function_in_file(SOURCE, "helper").unwrap();
    assert_eq!((r.start, r.end), (2, 5));
    assert!(ctx.find_function_in_file(SOURCE, "missing").is_none());
    // A one-line function closes on its own line.
    let r = ctx.find_function_in_file("fn one() { 1 }", "one").unwrap();
    assert_eq!((r.start, r.end), (0, 1));
}

#[test]
fn code_context_files_and_search() {
    let mut ctx = CodeContext::new();
    ctx.insert_file("src/lib.rs".to_string(), SOURCE.to_string());
    ctx.insert_file("src/other.py".to_string(), "x = 1\nprint(x)\n".to_string());
    ctx.insert_file("src/lib.rs".to_string(), "fn helper() {}\n".to_string());
    assert_eq!(ctx.get_file("src/lib.rs").as_deref(), Some("fn helper() {}\n"));
    assert!(ctx.get_file("nope").is_none());
    let (path, range) = ctx.find_function("helper").unwrap();
    assert_eq!(path, "src/lib.rs");
    assert_eq!((range.start, range.end), (0, 1));
    let hits = ctx.search_code("x", None);
    assert_eq!(hits, vec![("src/other.py".to_string(), 0, "x = 1".to_string()), ("src/other.py".to_string(), 1, "print(x)".to_string())]);
    assert!(ctx.search_code("x", Some(".rs")).is_empty());
    assert_eq!(ctx.search_code("helper", Some("lib")).len(), 1);
}

#[test]
fn languages_by_extension() {
    assert_eq!(detect_language("a/b.rs"), "rust");
    assert_eq!(detect_language("x.jsx"), "javascript");
    assert_eq!(detect_language("x.ts"), "typescript");
    assert_eq!(detect_language("x.py"), "python");
    assert_eq!(detect_language("x.go"), "go");
    assert_eq!(detect_language("x.cc"), "cpp");
    assert_eq!(detect_language("x.c"), "c");
    assert_eq!(detect_language("x.java"), "java");
    assert_eq!(detect_language("run.bash"), "bash");
    assert_eq!(detect_language("README"), "plain");
}

#[test]
fn show_code_of_a_function() {
    let mut h = handler_with_file("src/lib.rs", SOURCE);
    h.handle_request(ConversationRequest::ShowCode {
        file_path: "src/lib.rs".to_string(),
        function_name: Some("helper".to_string()),
        line_range: None,
    })
    .unwrap();
    let m = last_message(&h);
    assert_eq!(m.content, "Here's the code from src/lib.rs:");
    assert_eq!(m.code_blocks.len(), 1);
    assert_eq!(m.code_blocks[0].content, "fn helper() {\n    let x = 1;\n}");
    assert_eq!(m.code_blocks[0].language, "rust");
    assert!(m.code_blocks[0].editable);
    assert_eq!(m.code_blocks[0].focused_lines, Some(2..5));
    assert_eq!(m.context_actions.len(), 2);
}

#[test]
fn show_code_of_lines_and_whole_file() {
    let mut h = handler_with_file("a.py", "l0\nl1\nl2\n");
    h.handle_request(ConversationRequest::ShowCode { file_path: "a.py".to_string(), function_name: None, line_range: Some(1..3) })
        .unwrap();
    let m = last_message(&h);
    assert_eq!(m.code_blocks[0].content, "l1\nl2");
    assert_eq!(m.code_blocks[0].language, "python");
    h.handle_request(ConversationRequest::ShowCode { file_path: "a.py".to_string(), function_name: None, line_range: None })
        .unwrap();
    let m = last_message(&h);
    assert_eq!(m.code_blocks[0].content, "l0\nl1\nl2\n");
    assert_eq!(m.code_blocks[0].focused_lines, None);
    h.handle_request(ConversationRequest::ShowCode { file_path: "none.rs".to_string(), function_name: None, line_range: None })
        .unwrap();
    assert_eq!(last_message(&h).code_blocks[0].content, "");
}

#[test]
fn search_request_replies() {
    let mut h = handler_with_file("src/lib.rs", SOURCE);
    h.handle_request(ConversationRequest::SearchCode { query: "fn".to_string(), file_pattern: None }).unwrap();
    let m = last_message(&h);
    assert_eq!(m.content, "Found 2 results for 'fn':");
    assert_eq!(m.code_blocks.len(), 2);
    assert_eq!(m.code_blocks[0].content, "src/lib.rs:3: fn helper() {");
    assert!(!m.code_blocks[0].editable);
    h.handle_request(ConversationRequest::SearchCode { query: "zzz".to_string(), file_pattern: None }).unwrap();
    let m = last_message(&h);
    assert_eq!(m.content, "No results found for 'zzz'");
    assert!(m.code_blocks.is_empty());
    assert!(m.context_actions.is_empty());
}

#[test]
fn search_shows_at_most_five_hits() {
    let mut h = handler_with_file("t.txt", "a\na\na\na\na\na\na\n");
    h.handle_request(ConversationRequest::SearchCode { query: "a".to_string(), file_pattern: None }).unwrap();
    let m = last_message(&h);
    assert_eq!(m.content, "Found 7 results for 'a':");
    assert_eq!(m.code_blocks.len(), 5);
    assert_eq!(m.code_blocks[4].content, "t.txt:5: a");
    assert_eq!(m.code_blocks[4].language, "plain");
}

#[test]
fn other_requests_reply() {
    let mut h = ConversationHandler::new(ChatInterface::new(), ElementGraph::new());
    h.handle_request(ConversationRequest::RunCommand { command: "ls".to_string() }).unwrap();
    let m = last_message(&h);
    assert_eq!(m.content, "Command output:");
    assert_eq!(m.code_blocks[0].content, "$ ls\n[Command execution not yet implemented]");
    assert_eq!(m.code_blocks[0].language, "bash");
    h.handle_request(ConversationRequest::ExplainCode { code: "x".to_string(), language: "go".to_string() }).unwrap();
    let m = last_message(&h);
    assert_eq!(m.content, "Code explanation would be generated here using AI analysis.");
    assert_eq!(m.code_blocks[0].language, "go");
    h.handle_request(ConversationRequest::RefactorCode { original: "y".to_string(), instructions: "tidy".to_string() }).unwrap();
    let m = last_message(&h);
    assert_eq!(m.content, "Refactored code based on: tidy");
    assert_eq!(m.code_blocks[0].content, "y");
    assert!(m.code_blocks[0].editable);
    h.handle_request(ConversationRequest::SaveCode { file_path: "n.rs".to_string(), content: "fn n() {}".to_string() }).unwrap();
    let m = last_message(&h);
    assert_eq!(m.content, "Code saved to n.rs");
    assert_eq!(h.code_context().get_file("n.rs").as_deref(), Some("fn n() {}"));
}

#[test]
fn parse_show_function() {
    let h = ConversationHandler::new(ChatInterface::new(), ElementGraph::new());
    match h.parse_message("Please SHOW ME the function `render()` now") {
        Some(ConversationRequest::ShowCode { file_path, function_name, line_range }) => {
            assert_eq!(file_path, "");
            assert_eq!(function_name.as_deref(), Some("render"));
            assert!(line_range.is_none());
        },
        other => panic!("unexpected {:?}", other),
    }
    // "function" must be a word of the message itself.
    assert!(h.parse_message("display the Function foo").is_none());
    assert!(h.parse_message("show me function").is_none());
}

#[test]
fn parse_search_and_find() {
    let h = ConversationHandler::new(ChatInterface::new(), ElementGraph::new());
    match h.parse_message("Search For   TODO items ") {
        Some(ConversationRequest::SearchCode { query, file_pattern }) => {
            assert_eq!(query, "TODO items");
            assert!(file_pattern.is_none());
        },
        other => panic!("unexpected {:?}", other),
    }
    match h.parse_message("please find render_frame") {
        Some(ConversationRequest::SearchCode { query, .. }) => assert_eq!(query, "render_frame"),
        other => panic!("unexpected {:?}", other),
    }
}

#[test]
fn parse_run_and_explain() {
    let h = ConversationHandler::new(ChatInterface::new(), ElementGraph::new());
    match h.parse_message("run `cargo test` please") {
        Some(ConversationRequest::RunCommand { command }) => assert_eq!(command, "cargo test"),
        other => panic!("unexpected {:?}", other),
    }
    assert!(h.parse_message("run it").is_none());
    assert!(h.parse_message("execute `unfinished").is_none());
    match h.parse_message("Explain this") {
        Some(ConversationRequest::ExplainCode { code, language }) => {
            assert_eq!(code, "");
            assert_eq!(language, "rust");
        },
        other => panic!("unexpected {:?}", other),
    }
    assert!(h.parse_message("hello there").is_none());
}

#[test]
fn parse_with_non_ascii_before_keyword() {
    let h = ConversationHandler::new(ChatInterface::new(), ElementGraph::new());
    // The keyword's byte position in the lowercase text is a boundary here.
    assert_eq!(h.try_parse_message("é find x").map(|r| r.is_some()), Some(true));
    // "İ" lowercases to two characters (three bytes), which moves the query
    // start into the middle of "€".
    assert!(!can_parse_lowered("İsearch for€", &"İsearch for€".to_lowercase()));
    assert!(h.try_parse_message("İsearch for€").is_none());
}

#[test]
fn parse_lowered_uses_the_given_lowercase() {
    match parse_lowered("XX find y", "xx find y") {
        Some(ConversationRequest::SearchCode { query, .. }) => assert_eq!(query, "y"),
        other => panic!("unexpected {:?}", other),
    }
    assert!(parse_lowered("XX FIND y", "XX FIND y").is_none());
}

#[test]
fn chat_takes_scrolls_only_when_focused() {
    let mut c = ChatInterface::new();
    assert_eq!(c.handle_scroll(), EventHandled::No);
    c.focus();
    assert_eq!(c.handle_scroll(), EventHandled::Yes);
}
