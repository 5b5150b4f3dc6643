//! UI commands sent to the UI system: each is applied to the element
//! storage, the element graph or the input state, and answered with a
//! reply or an error message.

use vstd::prelude::*;
use crate::element::{add_child_result, remove_child_result, ElementGraph, ElementId};
use crate::input::manager::{InputManager, InputModel};
use crate::internal_storage::{remove_work, ElemModel, InternalElement, InternalElementStorage, StorageModel};
use crate::runtime::{uuid_string, uuid_text};
use crate::text::concat_strings;

verus! {

/// A command for the UI system. Element types, styles and bounds are the
/// caller's values; a style comes with its stacking index.
pub enum UiCommand<T, S, B> {
    CreateElement { element_type: T, style: S, z_index: i32, bounds: B, parent: Option<ElementId> },
    UpdateStyle { id: ElementId, style: S, z_index: i32 },
    UpdateBounds { id: ElementId, bounds: B },
    SetText { id: ElementId, text: String },
    SetVisible { id: ElementId, visible: bool },
    AddChild { parent: ElementId, child: ElementId },
    RemoveChild { parent: ElementId, child: ElementId },
    RemoveElement { id: ElementId },
    Focus { id: ElementId },
    Blur { id: ElementId },
    /// A command this system does not carry out.
    Unsupported,
}

/// The reply to a command that succeeded.
#[derive(Debug, Clone, Copy, PartialEq, Eq, Structural)]
pub enum CommandReply {
    Created(ElementId),
    Updated(ElementId),
    ParentChild { parent: ElementId, child: ElementId },
    Removed(ElementId),
    Focused(ElementId),
    Blurred(ElementId),
}

/// The message for a command naming an element that is not stored.
pub open spec fn element_not_found(id: ElementId) -> Seq<char> {
    "Element "@ + uuid_text(id) + " not found"@
}

/// The message for a command this system does not carry out.
pub open spec fn not_implemented() -> Seq<char> {
    "UI command not yet implemented"@
}

fn not_found_message(id: ElementId) -> (m: String)
    ensures
        m@ == element_not_found(id),
{
    let head = concat_strings("Element ", uuid_string(id).as_str());
    concat_strings(head.as_str(), " not found")
}

/// The storage after an update that made element `id` into `e` (marked changed).
pub open spec fn updated<T, S, B>(m: StorageModel<T, S, B>, id: ElementId, e: ElemModel<T, S, B>) -> StorageModel<T, S, B> {
    StorageModel { elements: m.elements.insert(id, ElemModel { dirty: true, ..e }), dirty: m.dirty.push(id), ..m }
}

/// Outcome of an update of element `id` into `e`: the reply and the new
/// storage when it is stored, the not-found message and no change otherwise.
pub open spec fn update_outcome<T, S, B>(
    m: StorageModel<T, S, B>,
    m2: StorageModel<T, S, B>,
    r: Result<CommandReply, String>,
    id: ElementId,
    e: ElemModel<T, S, B>,
) -> bool {
    if m.elements.contains_key(id) {
        r == Ok::<CommandReply, String>(CommandReply::Updated(id)) && m2 == updated(m, id, e)
    } else {
        (r matches Err(msg) && msg@ == element_not_found(id)) && m2 == m
    }
}

/// Applies `command`, and answers with a reply or an error message.
pub fn process_ui_command<T, S, B>(
    storage: &mut InternalElementStorage<T, S, B>,
    graph: &mut ElementGraph,
    input: &mut InputManager,
    command: UiCommand<T, S, B>,
) -> (r: Result<CommandReply, String>)
    requires
        old(storage).wf(),
    ensures
        final(storage).wf(),
        match command {
            UiCommand::CreateElement { element_type, style, z_index, bounds, parent } => {
                &&& r matches Ok(CommandReply::Created(id))
                &&& final(storage)@.elements == old(storage)@.elements.insert(id, ElemModel {
                    id,
                    element_type,
                    style,
                    z_index,
                    bounds,
                    parent: None,
                    children: Seq::empty(),
                    text: None,
                    visible: true,
                    dirty: true,
                })
                &&& final(storage)@.dirty == old(storage)@.dirty.push(id)
                &&& final(storage)@.root == (if old(storage)@.root is None { Some(id) } else { old(storage)@.root })
                &&& final(storage)@.z_order == old(storage)@.z_order
                &&& final(graph)@ == match parent {
                    Some(p) => add_child_result(old(graph)@, p, id),
                    None => old(graph)@,
                }
                &&& final(input)@ == old(input)@
            },
            UiCommand::UpdateStyle { id, style, z_index } => {
                &&& update_outcome(old(storage)@, final(storage)@, r, id, ElemModel { style, z_index, ..old(storage)@.elements[id] })
                &&& final(graph)@ == old(graph)@ && final(input)@ == old(input)@
            },
            UiCommand::UpdateBounds { id, bounds } => {
                &&& update_outcome(old(storage)@, final(storage)@, r, id, ElemModel { bounds, ..old(storage)@.elements[id] })
                &&& final(graph)@ == old(graph)@ && final(input)@ == old(input)@
            },
            UiCommand::SetText { id, text } => {
                &&& update_outcome(old(storage)@, final(storage)@, r, id, ElemModel { text: Some(text@), ..old(storage)@.elements[id] })
                &&& final(graph)@ == old(graph)@ && final(input)@ == old(input)@
            },
            UiCommand::SetVisible { id, visible } => {
                &&& update_outcome(old(storage)@, final(storage)@, r, id, ElemModel { visible, ..old(storage)@.elements[id] })
                &&& final(graph)@ == old(graph)@ && final(input)@ == old(input)@
            },
            UiCommand::AddChild { parent, child } => {
                &&& r == Ok::<CommandReply, String>(CommandReply::ParentChild { parent, child })
                &&& final(graph)@ == add_child_result(old(graph)@, parent, child)
                &&& final(storage)@ == old(storage)@ && final(input)@ == old(input)@
            },
            UiCommand::RemoveChild { parent, child } => {
                &&& r == Ok::<CommandReply, String>(CommandReply::ParentChild { parent, child })
                &&& final(graph)@ == remove_child_result(old(graph)@, parent, child)
                &&& final(storage)@ == old(storage)@ && final(input)@ == old(input)@
            },
            UiCommand::RemoveElement { id } => {
                &&& final(storage)@ == remove_work(old(storage)@, seq![id])
                &&& old(storage)@.elements.contains_key(id) ==> r == Ok::<CommandReply, String>(CommandReply::Removed(id))
                &&& !old(storage)@.elements.contains_key(id) ==> (r matches Err(msg) && msg@ == element_not_found(id))
                &&& final(graph)@ == old(graph)@ && final(input)@ == old(input)@
            },
            UiCommand::Focus { id } => {
                &&& r == Ok::<CommandReply, String>(CommandReply::Focused(id))
                &&& final(input)@ == (InputModel { focused: Some(id), ..old(input)@ })
                &&& final(storage)@ == old(storage)@ && final(graph)@ == old(graph)@
            },
            UiCommand::Blur { id } => {
                &&& r == Ok::<CommandReply, String>(CommandReply::Blurred(id))
                &&& final(input)@ == (InputModel { focused: None, ..old(input)@ })
                &&& final(storage)@ == old(storage)@ && final(graph)@ == old(graph)@
            },
            UiCommand::Unsupported => {
                &&& (r matches Err(msg) && msg@ == not_implemented())
                &&& final(storage)@ == old(storage)@ && final(graph)@ == old(graph)@ && final(input)@ == old(input)@
            },
        },
{
    match command {
        UiCommand::CreateElement { element_type, style, z_index, bounds, parent } => {
            let id = storage.create_element(element_type, style, z_index, bounds);
            match parent {
                Some(p) => {
                    let _ = graph.add_child(p, id);
                },
                None => {},
            }
            Ok(CommandReply::Created(id))
        },
        UiCommand::UpdateStyle { id, style, z_index } => {
            let updater = move |e: InternalElement<T, S, B>| -> (r: InternalElement<T, S, B>)
                ensures
                    r@ == (ElemModel { style, z_index, ..e@ }),
            {
                e.with_style(style, z_index)
            };
            if storage.update_element(id, updater) {
                Ok(CommandReply::Updated(id))
            } else {
                Err(not_found_message(id))
            }
        },
        UiCommand::UpdateBounds { id, bounds } => {
            let updater = move |e: InternalElement<T, S, B>| -> (r: InternalElement<T, S, B>)
                ensures
                    r@ == (ElemModel { bounds, ..e@ }),
            {
                e.with_bounds(bounds)
            };
            if storage.update_element(id, updater) {
                Ok(CommandReply::Updated(id))
            } else {
                Err(not_found_message(id))
            }
        },
        UiCommand::SetText { id, text } => {
            let ghost t = text@;
            let updater = move |e: InternalElement<T, S, B>| -> (r: InternalElement<T, S, B>)
                ensures
                    r@ == (ElemModel { text: Some(t), ..e@ }),
            {
                let mut e = e;
                e.text = Some(text);
                e
            };
            if storage.update_element(id, updater) {
                Ok(CommandReply::Updated(id))
            } else {
                Err(not_found_message(id))
            }
        },
        UiCommand::SetVisible { id, visible } => {
            let updater = move |e: InternalElement<T, S, B>| -> (r: InternalElement<T, S, B>)
                ensures
                    r@ == (ElemModel { visible, ..e@ }),
            {
                let mut e = e;
                e.visible = visible;
                e
            };
            if storage.update_element(id, updater) {
                Ok(CommandReply::Updated(id))
            } else {
                Err(not_found_message(id))
            }
        },
        UiCommand::AddChild { parent, child } => {
            let _ = graph.add_child(parent, child);
            Ok(CommandReply::ParentChild { parent, child })
        },
        UiCommand::RemoveChild { parent, child } => {
            let _ = graph.remove_child(parent, child);
            Ok(CommandReply::ParentChild { parent, child })
        },
        UiCommand::RemoveElement { id } => {
            if storage.remove_element(id) {
                Ok(CommandReply::Removed(id))
            } else {
                Err(not_found_message(id))
            }
        },
        UiCommand::Focus { id } => {
            input.set_focused_element(Some(id));
            Ok(CommandReply::Focused(id))
        },
        UiCommand::Blur { id } => {
            input.set_focused_element(None);
            Ok(CommandReply::Blurred(id))
        },
        UiCommand::Unsupported => Err(String::from_str("UI command not yet implemented")),
    }
}

} // verus!
