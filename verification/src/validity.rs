//! Whether a state that came from elsewhere can be worked on.

use crate::layout::LayoutNode;
use crate::layout_modes::LayoutMode;
use crate::names::{lemma_entries, names_distinct, NameMap};
use crate::ratio::ONE;
use crate::session::Session;
use crate::state::ServerState;
use crate::tab::{sound_tree, Tab};
use crate::text::same_text;
use vstd::prelude::*;

verus! {

impl LayoutNode {
    /// Whether every stack has panes, an active one among them, and no more names than
    /// panes.
    pub fn is_sound(&self) -> (r: bool)
        ensures
            r == sound_tree(self@),
        decreases self,
    {
        match self {
            LayoutNode::Split { first, second, .. } => first.is_sound() && second.is_sound(),
            LayoutNode::Stack { panes, names, active, .. } => *active < panes.len() && names.len()
                <= panes.len(),
        }
    }
}

impl LayoutMode {
    /// Whether the parameters of the mode are in range.
    pub fn is_valid(&self) -> (r: bool)
        ensures
            r == self.valid(),
    {
        match self {
            LayoutMode::Master(m) => m.master_ratio.units <= ONE,
            _ => true,
        }
    }
}

impl Tab {
    /// Whether the tab can be drawn and worked on.
    pub fn is_sound(&self) -> (r: bool)
        ensures
            r == self@.sound(),
    {
        let saved: bool = match &self.saved_custom_layout {
            Some(t) => t.is_sound(),
            None => true,
        };
        self.layout.is_sound() && self.layout_mode.is_valid() && saved
    }
}

impl Session {
    /// Whether the session shows a tab, and all of its tabs can be drawn and worked on.
    pub fn is_sound(&self) -> (r: bool)
        ensures
            r == self@.sound(),
    {
        if self.active_tab >= self.tabs.len() {
            return false;
        }
        let mut i: usize = 0;
        while i < self.tabs.len()
            invariant
                i <= self.tabs.len(),
                forall|k: int| 0 <= k < i ==> (#[trigger] self@.tabs[k]).sound(),
            decreases self.tabs.len() - i,
        {
            assert(self@.tabs[i as int] == self.tabs@[i as int]@);
            if !self.tabs[i].is_sound() {
                return false;
            }
            i += 1;
        }
        true
    }
}

/// Whether no name occurs twice.
pub fn has_distinct_names<T>(m: &NameMap<T>) -> (r: bool)
    ensures
        r == names_distinct(m.entries@),
{
    let mut i: usize = 0;
    while i < m.entries.len()
        invariant
            i <= m.entries.len(),
            forall|a: int, b: int|
                0 <= a < b < i ==> #[trigger] m.entries@[a].0@ != #[trigger] m.entries@[b].0@,
        decreases m.entries.len() - i,
    {
        let mut j: usize = 0;
        while j < i
            invariant
                j <= i < m.entries.len(),
                forall|a: int| 0 <= a < j ==> #[trigger] m.entries@[a].0@ != m.entries@[i as int].0@,
            decreases i - j,
        {
            if same_text(&m.entries[j].0, &m.entries[i].0) {
                assert(m.entries@[j as int].0@ == m.entries@[i as int].0@);
                return false;
            }
            j += 1;
        }
        i += 1;
    }
    true
}

impl ServerState {
    /// Whether names are distinct, and every session can be drawn and worked on.
    pub fn is_sound(&self) -> (r: bool)
        ensures
            r == self.sound(),
    {
        if !has_distinct_names(&self.sessions) || !has_distinct_names(&self.folders) {
            return false;
        }
        let ghost entries = self.sessions.entries@;
        proof {
            lemma_entries(entries);
        }
        let mut i: usize = 0;
        while i < self.sessions.entries.len()
            invariant
                i <= self.sessions.entries.len(),
                entries == self.sessions.entries@,
                names_distinct(entries),
                forall|k: int|
                    #![trigger entries[k]]
                    0 <= k < entries.len() ==> self@.sessions.contains_key(entries[k].0@)
                        && self@.sessions[entries[k].0@] == entries[k].1@,
                forall|k: int| 0 <= k < i ==> (#[trigger] entries[k]).1@.sound(),
            decreases self.sessions.entries.len() - i,
        {
            assert(entries[i as int] == self.sessions.entries@[i as int]);
            if !self.sessions.entries[i].1.is_sound() {
                assert(!self@.sessions[entries[i as int].0@].sound());
                return false;
            }
            i += 1;
        }
        proof {
            lemma_entries(entries);
            assert forall|k: Seq<char>| #[trigger] self@.sessions.contains_key(k) implies
                self@.sessions[k].sound() by {
                let j = choose|j: int| 0 <= j < entries.len() && (#[trigger] entries[j]).0@ == k;
                assert(entries[j].1@.sound());
            }
        }
        true
    }
}

} // verus!
