//! Conversational chat interface: a bounded message history and an input line.

use vstd::prelude::*;
use std::collections::VecDeque;
use std::ops::Range;
use crate::element::ElementId;
use crate::error::UiResult;
use crate::input::event::{EventHandled, Key};
use crate::runtime::{new_uuid, timestamp_now};
use crate::text::{chars_to_string, str_chars};

verus! {

/// Message type in the chat.
#[derive(Debug, Clone, Copy, PartialEq, Eq, Structural)]
pub enum MessageType {
    User,
    Assistant,
    System,
}

/// Code block within a message.
#[derive(Debug, Clone)]
pub struct CodeBlock {
    pub id: u128,
    pub language: String,
    pub content: String,
    pub editable: bool,
    pub focused_lines: Option<Range<usize>>,
}

/// Chat message with optional inline code blocks.
#[derive(Debug, Clone)]
pub struct ChatMessage {
    pub id: u128,
    pub message_type: MessageType,
    pub timestamp: u64,
    pub content: String,
    pub code_blocks: Vec<CodeBlock>,
    pub context_actions: Vec<ContextAction>,
}

/// Context action button of a message.
#[derive(Debug, Clone)]
pub struct ContextAction {
    pub id: u128,
    pub label: String,
    pub action: ActionType,
}

#[derive(Debug, Clone)]
pub enum ActionType {
    Save { file_path: String },
    Run { command: String },
    OpenInEditor,
    CopyToClipboard,
    ShowDiff,
}

/// Number of messages the chat keeps.
pub const MAX_CHAT_MESSAGES: usize = 1000;

/// History after appending `m`, dropping the oldest message when full.
pub open spec fn push_message(msgs: Seq<ChatMessage>, m: ChatMessage) -> Seq<ChatMessage> {
    (if msgs.len() >= MAX_CHAT_MESSAGES { msgs.drop_first() } else { msgs }).push(m)
}

/// Mathematical model of the chat interface.
#[verifier::ext_equal]
pub struct ChatModel {
    pub messages: Seq<ChatMessage>,
    pub input: Seq<char>,
    pub focused: bool,
    pub children: Seq<ElementId>,
    pub dirty: bool,
}

/// Chat interface for the conversational IDE.
pub struct ChatInterface {
    messages: VecDeque<ChatMessage>,
    max_messages: usize,
    input_buffer: Vec<char>,
    is_focused: bool,
    message_elements: Vec<ElementId>,
    dirty: bool,
}

impl View for ChatInterface {
    type V = ChatModel;

    closed spec fn view(&self) -> ChatModel {
        ChatModel {
            messages: self.messages@,
            input: self.input_buffer@,
            focused: self.is_focused,
            children: self.message_elements@,
            dirty: self.dirty,
        }
    }
}

/// The message most recently added has this type, content and blocks.
pub open spec fn is_new_message(m: ChatMessage, t: MessageType, content: Seq<char>, blocks: Seq<CodeBlock>) -> bool {
    &&& m.message_type == t
    &&& m.content@ == content
    &&& m.code_blocks@ == blocks
}

/// Context actions offered for a message with code blocks: open in the editor, then copy.
pub open spec fn default_actions(actions: Seq<ContextAction>) -> bool {
    &&& actions.len() == 2
    &&& actions[0].label@ == "Open in IDE"@
    &&& actions[0].action is OpenInEditor
    &&& actions[1].label@ == "Copy"@
    &&& actions[1].action is CopyToClipboard
}

impl ChatInterface {
    pub closed spec fn wf(&self) -> bool {
        &&& self.max_messages == MAX_CHAT_MESSAGES
        &&& self.messages@.len() <= MAX_CHAT_MESSAGES
    }

    pub fn new() -> (c: Self)
        ensures
            c.wf(),
            c@.messages == Seq::<ChatMessage>::empty(),
            c@.input == Seq::<char>::empty(),
            !c@.focused,
            c@.children == Seq::<ElementId>::empty(),
            !c@.dirty,
    {
        ChatInterface {
            messages: VecDeque::new(),
            max_messages: MAX_CHAT_MESSAGES,
            input_buffer: Vec::new(),
            is_focused: false,
            message_elements: Vec::new(),
            dirty: false,
        }
    }

    /// Appends a message, dropping the oldest one when the history is full.
    pub fn add_message(&mut self, message: ChatMessage)
        requires
            old(self).wf(),
        ensures
            final(self).wf(),
            final(self)@ == (ChatModel { messages: push_message(old(self)@.messages, message), dirty: true, ..old(self)@ }),
    {
        if self.messages.len() >= self.max_messages {
            self.messages.pop_front();
        }
        self.messages.push_back(message);
        self.dirty = true;
        proof {
            assert(self@.messages =~= push_message(old(self)@.messages, message));
        }
    }

    /// Appends a message typed by the user (fresh id, current time).
    pub fn add_user_message(&mut self, content: String)
        requires
            old(self).wf(),
        ensures
            final(self).wf(),
            final(self)@.messages.len() > 0,
            final(self)@ == (ChatModel {
                messages: push_message(old(self)@.messages, final(self)@.messages.last()),
                dirty: true,
                ..old(self)@
            }),
            is_new_message(final(self)@.messages.last(), MessageType::User, content@, Seq::empty()),
            final(self)@.messages.last().context_actions@.len() == 0,
    {
        let message = ChatMessage {
            id: new_uuid(),
            message_type: MessageType::User,
            timestamp: timestamp_now(),
            content,
            code_blocks: Vec::new(),
            context_actions: Vec::new(),
        };
        self.add_message(message);
    }

    /// Appends an assistant message; one that carries code blocks gets the
    /// default context actions.
    pub fn add_assistant_message(&mut self, content: String, code_blocks: Vec<CodeBlock>)
        requires
            old(self).wf(),
        ensures
            final(self).wf(),
            final(self)@.messages.len() > 0,
            final(self)@ == (ChatModel {
                messages: push_message(old(self)@.messages, final(self)@.messages.last()),
                dirty: true,
                ..old(self)@
            }),
            is_new_message(final(self)@.messages.last(), MessageType::Assistant, content@, code_blocks@),
            code_blocks@.len() > 0 ==> default_actions(final(self)@.messages.last().context_actions@),
            code_blocks@.len() == 0 ==> final(self)@.messages.last().context_actions@.len() == 0,
    {
        let mut context_actions: Vec<ContextAction> = Vec::new();
        if code_blocks.len() > 0 {
            context_actions.push(ContextAction {
                id: new_uuid(),
                label: String::from_str("Open in IDE"),
                action: ActionType::OpenInEditor,
            });
            context_actions.push(ContextAction {
                id: new_uuid(),
                label: String::from_str("Copy"),
                action: ActionType::CopyToClipboard,
            });
        }
        let message = ChatMessage {
            id: new_uuid(),
            message_type: MessageType::Assistant,
            timestamp: timestamp_now(),
            content,
            code_blocks,
            context_actions,
        };
        self.add_message(message);
    }

    pub fn clear_messages(&mut self)
        requires
            old(self).wf(),
        ensures
            final(self).wf(),
            final(self)@ == (ChatModel { messages: Seq::empty(), dirty: true, ..old(self)@ }),
    {
        self.messages.clear();
        self.dirty = true;
    }

    /// The messages of the visible window: skipping `skip_count` messages, at
    /// most `visible_count` of them (the counts come from the scroll position
    /// and viewport height).
    pub fn get_visible_messages(&self, skip_count: usize, visible_count: usize) -> (v: Vec<&ChatMessage>)
        ensures
            v@.len() == if skip_count >= self@.messages.len() {
                0
            } else if self@.messages.len() - skip_count < visible_count {
                self@.messages.len() - skip_count
            } else {
                visible_count as int
            },
            forall|i: int| 0 <= i < v@.len() ==> *#[trigger] v@[i] == self@.messages[skip_count + i],
    {
        let mut v: Vec<&ChatMessage> = Vec::new();
        let n = self.messages.len();
        let mut i: usize = skip_count;
        while i < n && i - skip_count < visible_count
            invariant
                skip_count <= i || (skip_count > n && i == skip_count),
                n == self@.messages.len(),
                i >= skip_count,
                i <= n || i == skip_count,
                v@.len() == i - skip_count,
                v@.len() <= visible_count,
                forall|j: int| 0 <= j < v@.len() ==> *#[trigger] v@[j] == self@.messages[skip_count + j],
            decreases n - i,
        {
            v.push(&self.messages[i]);
            i = i + 1;
        }
        v
    }

    /// Runs the context action `action_id` of message `message_id`; no action has an effect yet.
    pub fn handle_context_action(&mut self, message_id: u128, action_id: u128) -> (r: UiResult<()>)
        ensures
            r is Ok,
            final(self)@ == old(self)@,
    {
        Ok(())
    }

    /// Gives the chat the keyboard focus.
    pub fn focus(&mut self)
        ensures
            final(self)@ == (ChatModel { focused: true, ..old(self)@ }),
    {
        self.is_focused = true;
    }

    /// Handles a scroll: a focused chat takes it (the offset itself is kept
    /// by the caller) and is marked for redrawing.
    pub fn handle_scroll(&mut self) -> (r: EventHandled)
        ensures
            !old(self)@.focused ==> final(self)@ == old(self)@ && r == EventHandled::No,
            old(self)@.focused ==> r == EventHandled::Yes && final(self)@ == (ChatModel { dirty: true, ..old(self)@ }),
    {
        if !self.is_focused {
            return EventHandled::No;
        }
        self.dirty = true;
        EventHandled::Yes
    }

    /// Handles a key press: Enter sends the input line, Backspace deletes its last character.
    pub fn handle_key(&mut self, key: Key) -> (r: EventHandled)
        requires
            old(self).wf(),
        ensures
            final(self).wf(),
            !old(self)@.focused || (key != Key::Enter && key != Key::Backspace) ==> final(self)@ == old(self)@ && r == EventHandled::No,
            old(self)@.focused && key == Key::Backspace ==> r == EventHandled::Yes && final(self)@ == (ChatModel {
                input: if old(self)@.input.len() > 0 { old(self)@.input.drop_last() } else { old(self)@.input },
                dirty: true,
                ..old(self)@
            }),
            old(self)@.focused && key == Key::Enter && old(self)@.input.len() == 0 ==> r == EventHandled::Yes && final(self)@ == old(self)@,
            old(self)@.focused && key == Key::Enter && old(self)@.input.len() > 0 ==> {
                &&& r == EventHandled::Yes
                &&& final(self)@.messages.len() > 0
                &&& final(self)@ == (ChatModel {
                    messages: push_message(old(self)@.messages, final(self)@.messages.last()),
                    input: Seq::empty(),
                    dirty: true,
                    ..old(self)@
                })
                &&& is_new_message(final(self)@.messages.last(), MessageType::User, old(self)@.input, Seq::empty())
                &&& final(self)@.messages.last().context_actions@.len() == 0
            },
    {
        if !self.is_focused {
            return EventHandled::No;
        }
        match key {
            Key::Enter => {
                if self.input_buffer.len() > 0 {
                    let message = chars_to_string(self.input_buffer.as_slice());
                    self.add_user_message(message);
                    self.input_buffer.clear();
                    self.dirty = true;
                }
                EventHandled::Yes
            },
            Key::Backspace => {
                self.input_buffer.pop();
                self.dirty = true;
                proof {
                    if old(self)@.input.len() > 0 {
                        assert(self@.input =~= old(self)@.input.drop_last());
                    }
                }
                EventHandled::Yes
            },
            _ => EventHandled::No,
        }
    }

    /// Handles typed text: appended to the input line of a focused chat.
    pub fn handle_text_input(&mut self, text: &str) -> (r: EventHandled)
        requires
            old(self).wf(),
        ensures
            final(self).wf(),
            !old(self)@.focused ==> final(self)@ == old(self)@ && r == EventHandled::No,
            old(self)@.focused ==> r == EventHandled::Yes && final(self)@ == (ChatModel {
                input: old(self)@.input + text@,
                dirty: true,
                ..old(self)@
            }),
    {
        if !self.is_focused {
            return EventHandled::No;
        }
        let t = str_chars(text);
        let n = self.input_buffer.len();
        crate::text::insert_chars(&mut self.input_buffer, n, &t);
        self.dirty = true;
        proof {
            assert(old(self)@.input.take(n as int) =~= old(self)@.input);
            assert(old(self)@.input.skip(n as int) =~= Seq::<char>::empty());
            assert(self@.input =~= old(self)@.input + text@);
        }
        EventHandled::Yes
    }
}

} // verus!
