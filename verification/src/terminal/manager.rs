//! Registry of emulated terminals keyed by terminal id.

use vstd::prelude::*;
use std::collections::HashMap;
use crate::error::{UiError, UiResult};
use crate::terminal::emulator::{emulate, Terminal, TerminalModel};
use crate::runtime::{uuid_string, uuid_text};
use crate::text::concat_strings;

verus! {

broadcast use vstd::std_specs::hash::group_hash_axioms;

/// Message reported when no terminal has the given id.
pub open spec fn not_found_text(id: u128) -> Seq<char> {
    "Terminal "@ + uuid_text(id) + " not found"@
}

fn not_found_message(id: u128) -> (m: String)
    ensures
        m@ == not_found_text(id),
{
    let head = concat_strings("Terminal ", uuid_string(id).as_str());
    concat_strings(head.as_str(), " not found")
}

/// A text can be written to a terminal in state `t`: no character lands
/// inside the encoding of another, and the cursor column stays representable.
pub open spec fn can_write(t: TerminalModel, text: Seq<char>) -> bool {
    &&& emulate(t, text).1
    &&& t.col + 4 * text.len() + 4 <= usize::MAX
}

/// Manages the terminals of the UI, keyed by the terminal's UUID (as a 128-bit value).
pub struct TerminalManager {
    terminals: HashMap<u128, Terminal>,
}

impl View for TerminalManager {
    type V = Map<u128, TerminalModel>;

    closed spec fn view(&self) -> Map<u128, TerminalModel> {
        self.terminals@.map_values(|t: Terminal| t@)
    }
}

impl TerminalManager {
    /// Every managed terminal is well formed and registered under its own id.
    pub closed spec fn wf(&self) -> bool {
        forall|id: u128| #[trigger] self.terminals@.contains_key(id) ==> self.terminals@[id].wf() && self.terminals@[id].id() == id
    }

    pub fn new() -> (m: Self)
        ensures
            m.wf(),
            m@ == Map::<u128, TerminalModel>::empty(),
    {
        let m = TerminalManager { terminals: HashMap::new() };
        proof {
            assert(m@ =~= Map::<u128, TerminalModel>::empty());
        }
        m
    }

    /// Registers a fresh terminal under `id`, replacing any terminal that had it.
    pub fn create_terminal(&mut self, id: u128) -> (r: UiResult<()>)
        requires
            old(self).wf(),
        ensures
            r is Ok,
            final(self).wf(),
            final(self)@ == old(self)@.insert(id, TerminalModel { lines: seq![Seq::<char>::empty()], row: 0, col: 0 }),
    {
        let t = Terminal::new(id);
        self.terminals.insert(id, t);
        proof {
            assert(self@ =~= old(self)@.insert(id, TerminalModel { lines: seq![Seq::<char>::empty()], row: 0, col: 0 }));
        }
        Ok(())
    }

    /// Forgets the terminal registered under `id`, if any.
    pub fn destroy_terminal(&mut self, id: u128) -> (r: UiResult<()>)
        requires
            old(self).wf(),
        ensures
            r is Ok,
            final(self).wf(),
            final(self)@ == old(self)@.remove(id),
    {
        self.terminals.remove(&id);
        proof {
            assert(self@ =~= old(self)@.remove(id));
        }
        Ok(())
    }

    /// Writes `text` to the terminal registered under `id`.
    pub fn write_to_terminal(&mut self, id: u128, text: String) -> (r: UiResult<()>)
        requires
            old(self).wf(),
            old(self)@.contains_key(id) ==> can_write(old(self)@[id], text@),
        ensures
            final(self).wf(),
            old(self)@.contains_key(id) ==> (r is Ok) && final(self)@ == old(self)@.insert(id, emulate(old(self)@[id], text@).0),
            !old(self)@.contains_key(id) ==> (r matches Err(UiError::TerminalError(m)) && m@ == not_found_text(id)) && final(self)@ == old(self)@,
    {
        match self.terminals.remove(&id) {
            Some(mut t) => {
                t.write(text);
                self.terminals.insert(id, t);
                proof {
                    assert(self@ =~= old(self)@.insert(id, emulate(old(self)@[id], text@).0));
                }
                Ok(())
            },
            None => {
                proof {
                    assert(self.terminals@ =~= old(self).terminals@);
                }
                Err(UiError::TerminalError(not_found_message(id)))
            },
        }
    }

    /// The lines of the terminal registered under `id`.
    pub fn read_from_terminal(&self, id: u128) -> (r: UiResult<Vec<String>>)
        requires
            self.wf(),
        ensures
            self@.contains_key(id) ==> (r matches Ok(lines) && lines@.len() == self@[id].lines.len()
                && forall|i: int| 0 <= i < lines@.len() ==> #[trigger] lines@[i]@ == self@[id].lines[i]),
            !self@.contains_key(id) ==> (r matches Err(UiError::TerminalError(m)) && m@ == not_found_text(id)),
    {
        match self.terminals.get(&id) {
            Some(t) => Ok(t.read()),
            None => Err(UiError::TerminalError(not_found_message(id))),
        }
    }
}

} // verus!
