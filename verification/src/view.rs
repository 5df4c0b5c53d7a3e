//! The firewall view's selection state and key handling.
//!
//! The view owns which rule and which event are selected and which panel
//! shows; a key event moves the selection or drives the engine. Drawing
//! is the surrounding program's business.

use vstd::prelude::*;
use crate::engine::FirewallEngine;

verus! {

/// The keys the view reacts to, free of any terminal library.
#[derive(Clone, Copy, Debug, PartialEq, Eq, Structural)]
pub enum ViewKey {
    Up,
    Down,
    Left,
    Right,
    Enter,
    Delete,
    ToggleStats,
    ToggleEditor,
    ClearEvents,
    ResetStats,
    LoadDefaults,
    ToggleFirewall,
    Other,
}

/// The firewall view.
pub struct FirewallView {
    pub selected_rule: usize,
    pub selected_event: usize,
    pub show_rule_editor: bool,
    pub show_stats: bool,
}

impl FirewallView {
    /// A fresh view: first rule and event selected, statistics panel
    /// showing, editor hidden.
    pub fn new() -> (r: FirewallView)
        ensures
            r.selected_rule == 0,
            r.selected_event == 0,
            !r.show_rule_editor,
            r.show_stats,
    {
        FirewallView { selected_rule: 0, selected_event: 0, show_rule_editor: false, show_stats: true }
    }

    /// The index of the selected rule.
    pub fn get_selected_rule(&self) -> (r: usize)
        ensures
            r == self.selected_rule,
    {
        self.selected_rule
    }

    /// The index of the selected event.
    pub fn get_selected_event(&self) -> (r: usize)
        ensures
            r == self.selected_event,
    {
        self.selected_event
    }

    /// Move the rule selection.
    pub fn set_selected_rule(&mut self, index: usize)
        ensures
            *final(self) == (FirewallView { selected_rule: index, ..*old(self) }),
    {
        self.selected_rule = index;
    }

    /// Switch between the statistics and event panels.
    pub fn toggle_stats_view(&mut self)
        ensures
            *final(self) == (FirewallView { show_stats: !old(self).show_stats, ..*old(self) }),
    {
        self.show_stats = !self.show_stats;
    }

    /// Show or hide the rule editor.
    pub fn toggle_rule_editor(&mut self)
        ensures
            *final(self) == (FirewallView {
                show_rule_editor: !old(self).show_rule_editor,
                ..*old(self)
            }),
    {
        self.show_rule_editor = !self.show_rule_editor;
    }

    /// Whether the statistics panel shows.
    pub fn is_stats_view(&self) -> (r: bool)
        ensures
            r == self.show_stats,
    {
        self.show_stats
    }

    /// Whether the rule editor shows.
    pub fn is_rule_editor_open(&self) -> (r: bool)
        ensures
            r == self.show_rule_editor,
    {
        self.show_rule_editor
    }

    /// React to one key: the vertical keys move the rule selection within
    /// the rule list, the horizontal keys move the event selection within
    /// the event log, enter toggles the selected rule, delete removes it,
    /// and the letter keys drive the panels and the engine.
    pub fn handle_key(&mut self, key: ViewKey, engine: &mut FirewallEngine, now: u64)
        requires
            old(engine).wf(),
            old(engine).rule_counter + 5 <= 0xFFFFFFFF,
        ensures
            final(engine).wf(),
            key is Up ==> final(self).selected_rule == (if old(self).selected_rule > 0 {
                old(self).selected_rule - 1
            } else {
                0int
            }) && *final(engine) == *old(engine),
            key is Down ==> final(self).selected_rule == (if old(self).selected_rule + 1
                < old(engine).rules@.len() {
                old(self).selected_rule + 1
            } else {
                old(self).selected_rule as int
            }) && *final(engine) == *old(engine),
            key is Left ==> final(self).selected_event == (if old(self).selected_event > 0 {
                old(self).selected_event - 1
            } else {
                0int
            }) && *final(engine) == *old(engine),
            key is Right ==> final(self).selected_event == (if old(self).selected_event + 1
                < old(engine).recent_events@.len() {
                old(self).selected_event + 1
            } else {
                old(self).selected_event as int
            }) && *final(engine) == *old(engine),
            key is ToggleStats ==> final(self).show_stats == !old(self).show_stats
                && *final(engine) == *old(engine),
            key is ToggleEditor ==> final(self).show_rule_editor == !old(self).show_rule_editor
                && *final(engine) == *old(engine),
            key is ClearEvents ==> final(engine).recent_events@.len() == 0,
            key is ToggleFirewall ==> final(engine).enabled == !old(engine).enabled,
            key is LoadDefaults ==> final(engine).rules@.len() == old(engine).rules@.len() + 5,
            key is Other ==> *final(self) == *old(self) && *final(engine) == *old(engine),
    {
        match key {
            ViewKey::Up => {
                if self.selected_rule > 0 {
                    self.selected_rule = self.selected_rule - 1;
                }
            },
            ViewKey::Down => {
                let limit = engine.get_rules().len();
                if self.selected_rule < limit && self.selected_rule + 1 < limit {
                    self.selected_rule = self.selected_rule + 1;
                }
            },
            ViewKey::Left => {
                if self.selected_event > 0 {
                    self.selected_event = self.selected_event - 1;
                }
            },
            ViewKey::Right => {
                let limit = engine.get_recent_events().len();
                if self.selected_event < limit && self.selected_event + 1 < limit {
                    self.selected_event = self.selected_event + 1;
                }
            },
            ViewKey::Enter => {
                let at = self.selected_rule;
                if at < engine.get_rules().len() {
                    let rule_id = engine.get_rules()[at].id;
                    let enabled = engine.get_rules()[at].enabled;
                    if enabled {
                        engine.disable_rule(rule_id);
                    } else {
                        engine.enable_rule(rule_id);
                    }
                }
            },
            ViewKey::Delete => {
                let at = self.selected_rule;
                if at < engine.get_rules().len() {
                    let rule_id = engine.get_rules()[at].id;
                    engine.remove_rule(rule_id);
                    if self.selected_rule > 0 {
                        self.selected_rule = self.selected_rule - 1;
                    }
                }
            },
            ViewKey::ToggleStats => {
                self.show_stats = !self.show_stats;
            },
            ViewKey::ToggleEditor => {
                self.show_rule_editor = !self.show_rule_editor;
            },
            ViewKey::ClearEvents => {
                engine.clear_events();
            },
            ViewKey::ResetStats => {
                engine.reset_stats(now);
            },
            ViewKey::LoadDefaults => {
                engine.load_default_rules();
            },
            ViewKey::ToggleFirewall => {
                let on = engine.is_enabled();
                engine.set_enabled(!on);
            },
            ViewKey::Other => {},
        }
    }
}

} // verus!
