//! The panel with the inlining decisions.

use vstd::prelude::*;
#[allow(unused_imports)]
use vstd::string::*;

#[allow(unused_imports)]
use super::AppModel;
use super::App;
use crate::config::Action;
use crate::model::InlineDecision;
#[allow(unused_imports)]
use crate::model::{decision_models, DecisionModel};
use crate::text;
#[allow(unused_imports)]
use crate::text::decimal;

verus! {

/// A decision in words.
pub open spec fn decision_text(d: DecisionModel) -> Seq<char> {
    (if d.inlined {
        "INLINE"@
    } else {
        "SKIP"@
    }) + " "@ + d.callee + " — "@ + d.reason
}

impl AppModel {
    /// The inlining decisions of the compilation in view.
    pub open spec fn decisions(self) -> Seq<DecisionModel> {
        match self.current_comp() {
            Some(comp) => self.parse_of(comp).inline_decisions,
            None => Seq::empty(),
        }
    }

    /// The panel is opened or closed.
    #[verifier::opaque]
    pub open spec fn panel_toggled(self) -> AppModel {
        let n = self.decisions().len() as int;
        if self.inline_panel is Some {
            self.with_inline_panel(None)
        } else if self.current_comp() is None {
            self.say("inlining decisions need a compilation in view"@)
        } else if n == 0 {
            self.say("no inlining decisions here (run with --trace-maglev-inlining)"@)
        } else {
            self.with_inline_panel(Some(0)).say(
                decimal(n) + " inlining decisions — Enter jumps, Esc closes"@,
            )
        }
    }

    /// What a key does while the panel is open: it moves the selection, jumps
    /// to the decision, or closes the panel.
    pub open spec fn panel_key(self, at: usize, action: Option<Action>) -> AppModel {
        let list = self.decisions();
        let closed = self.with_inline_panel(None);
        match action {
            Some(Action::Down) => self.with_inline_panel(
                Some(
                    (if at + 1 < list.len() {
                        at + 1
                    } else if list.len() > 0 {
                        list.len() - 1
                    } else {
                        0
                    }) as usize,
                ),
            ),
            Some(Action::Up) => self.with_inline_panel(
                Some(
                    (if at > 0 {
                        at - 1
                    } else {
                        0
                    }) as usize,
                ),
            ),
            Some(Action::Select) => if at < list.len() {
                closed.history_pushed().gone_to(list[at as int].line).say(
                    decision_text(list[at as int]),
                )
            } else {
                closed
            },
            _ => closed,
        }
    }
}

fn copy_decisions(list: &Vec<InlineDecision>) -> (out: Vec<InlineDecision>)
    ensures
        decision_models(out@) == decision_models(list@),
{
    let mut out: Vec<InlineDecision> = Vec::new();
    let mut k: usize = 0;
    assert(decision_models(out@) =~= decision_models(list@).take(0));
    while k < list.len()
        invariant
            k <= list@.len(),
            decision_models(out@) == decision_models(list@).take(k as int),
        decreases list.len() - k,
    {
        let ghost before = out@;
        let d = &list[k];
        let copy = InlineDecision {
            line: d.line,
            inlined: d.inlined,
            callee: text::owned(d.callee.as_str()),
            reason: text::owned(d.reason.as_str()),
        };
        assert(copy@ =~= d@);
        out.push(copy);
        assert(decision_models(out@) =~= decision_models(before).push(d@));
        assert(decision_models(out@) =~= decision_models(list@).take(k + 1));
        k += 1;
    }
    assert(decision_models(list@).take(k as int) =~= decision_models(list@));
    out
}

impl App {
    /// The inlining decisions of the compilation in view.
    pub fn inline_decisions(&mut self) -> (list: Vec<InlineDecision>)
        requires
            old(self).wf(),
        ensures
            final(self).wf(),
            final(self)@ == old(self)@,
            decision_models(list@) == old(self)@.decisions(),
    {
        proof {
            self.lemma_fields();
            self.lemma_wf();
        }
        let active: usize = self.active;
        match self.current_comp() {
            Some(comp) => {
                let parsed = self.parse(active, comp);
                copy_decisions(&parsed.inline_decisions)
            },
            None => {
                let none: Vec<InlineDecision> = Vec::new();
                assert(decision_models(none@) =~= Seq::empty());
                none
            },
        }
    }

    /// Opens or closes the panel.
    pub(crate) fn toggle_inline_panel(&mut self)
        requires
            old(self).wf(),
        ensures
            final(self).wf(),
            final(self)@ == old(self)@.panel_toggled(),
    {
        reveal(AppModel::panel_toggled);
        proof {
            self.lemma_fields();
        }
        if self.inline_panel.is_some() {
            self.set_inline_panel(None);
            return ;
        }
        if self.current_comp().is_none() {
            self.say("inlining decisions need a compilation in view");
            return ;
        }
        let list = self.inline_decisions();
        assert(decision_models(list@).len() == list@.len());
        let n: usize = list.len();
        if n == 0 {
            self.say("no inlining decisions here (run with --trace-maglev-inlining)");
            return ;
        }
        self.set_inline_panel(Some(0));
        let mut message = text::decimal_text(n);
        message.append(" inlining decisions — Enter jumps, Esc closes");
        self.say_text(message);
    }

    fn jump_to_decision(&mut self, d: &InlineDecision)
        requires
            old(self).wf(),
        ensures
            final(self).wf(),
            final(self)@ == old(self)@.history_pushed().gone_to(d@.line).say(decision_text(d@)),
    {
        self.push_history();
        self.goto_line(d.line);
        let mut message = text::owned(
            if d.inlined {
                "INLINE"
            } else {
                "SKIP"
            },
        );
        message.append(" ");
        message.append(d.callee.as_str());
        message.append(" — ");
        message.append(d.reason.as_str());
        self.say_text(message);
    }

    /// Handles a key while the panel is open.
    pub(crate) fn handle_panel_key(&mut self, at: usize, action: Option<Action>)
        requires
            old(self).wf(),
        ensures
            final(self).wf(),
            final(self)@ == old(self)@.panel_key(at, action),
    {
        let list = self.inline_decisions();
        assert(decision_models(list@).len() == list@.len());
        match action {
            Some(Action::Down) => {
                let next: usize = if at < list.len() && at + 1 < list.len() {
                    at + 1
                } else if list.len() > 0 {
                    list.len() - 1
                } else {
                    0
                };
                self.set_inline_panel(Some(next));
            },
            Some(Action::Up) => {
                let next: usize = if at > 0 {
                    at - 1
                } else {
                    0
                };
                self.set_inline_panel(Some(next));
            },
            Some(Action::Select) => {
                self.set_inline_panel(None);
                if at < list.len() {
                    assert(decision_models(list@)[at as int] == list@[at as int]@);
                    self.jump_to_decision(&list[at]);
                }
            },
            _ => {
                self.set_inline_panel(None);
            },
        }
    }
}

} // verus!
