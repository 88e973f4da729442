//! Quest lines: independent, strictly sequential turn-in state machines.
//!
//! A line is an ordered list of stages; exactly one stage is active at a
//! time, and the position one past the last stage is the terminal
//! "complete" state. Advancing checks the active stage's turn-in
//! requirement against the ledger; only when it is covered does the line
//! pay it, grant the stage's rewards and move forward — one stage at a
//! time, never backward, never skipping. A terminal line refuses every
//! further turn-in and mutates nothing.

use vstd::prelude::*;
use crate::ledger::{CostEntry, ResourceLedger, count_in, add_sat, paid_one};
use crate::names::Capabilities;

verus! {

/// What completing a stage grants.
#[derive(Debug, Clone)]
pub enum QuestReward {
    /// Add an amount of a resource to the ledger.
    Grant { id: String, amount: u32 },
    /// Set a named capability flag.
    SetFlag(String),
}

/// A stage reward over character sequences.
pub enum QuestGain {
    Grant(Seq<char>, u32),
    SetFlag(Seq<char>),
}

impl View for QuestReward {
    type V = QuestGain;

    open spec fn view(&self) -> QuestGain {
        match self {
            QuestReward::Grant { id, amount } => QuestGain::Grant(id@, *amount),
            QuestReward::SetFlag(f) => QuestGain::SetFlag(f@),
        }
    }
}

impl DeepView for QuestReward {
    type V = QuestGain;

    open spec fn deep_view(&self) -> QuestGain {
        self.view()
    }
}

/// One non-terminal stage: its turn-in requirement and its rewards.
#[derive(Debug)]
pub struct QuestStage {
    pub requirement: CostEntry,
    pub rewards: Vec<QuestReward>,
}

/// Whether one turn-in requirement is covered: its resource is retired, or
/// at least the required amount is held.
pub open spec fn req_met(
    s: Seq<(Seq<char>, u32)>,
    retired: Seq<Seq<char>>,
    e: (Seq<char>, u32),
) -> bool {
    retired.contains(e.0) || count_in(s, e.0) >= e.1
}

/// The counts and flags after granting one stage reward.
pub open spec fn gain_applied(
    s: Seq<(Seq<char>, u32)>,
    flags: Seq<Seq<char>>,
    g: QuestGain,
) -> (Seq<(Seq<char>, u32)>, Seq<Seq<char>>) {
    match g {
        QuestGain::Grant(id, amount) => (
            crate::imap::upsert(s, id, add_sat(count_in(s, id), amount)),
            flags,
        ),
        QuestGain::SetFlag(f) => (s, crate::graph::add_name(flags, f)),
    }
}

/// The counts and flags after granting every stage reward, first to last.
pub open spec fn gains_applied(
    s: Seq<(Seq<char>, u32)>,
    flags: Seq<Seq<char>>,
    gains: Seq<QuestGain>,
) -> (Seq<(Seq<char>, u32)>, Seq<Seq<char>>)
    decreases gains.len(),
{
    if gains.len() == 0 {
        (s, flags)
    } else {
        let t = gain_applied(s, flags, gains[0]);
        gains_applied(t.0, t.1, gains.drop_first())
    }
}

/// One quest line: its stages and the active position. The position one
/// past the last stage is the terminal "complete" state.
#[derive(Debug)]
pub struct QuestLine {
    stages: Vec<QuestStage>,
    current: usize,
}

impl QuestLine {
    /// The declared stages, in order.
    pub closed spec fn stages_seq(self) -> Seq<QuestStage> {
        self.stages@
    }

    /// The active position; equal to the stage count once complete.
    pub closed spec fn position(self) -> int {
        self.current as int
    }

    /// The position never passes the terminal state.
    pub open spec fn wf(self) -> bool {
        self.position() <= self.stages_seq().len()
    }

    /// Whether the line is complete: no stage is active.
    pub open spec fn spec_complete(self) -> bool {
        self.position() >= self.stages_seq().len()
    }

    /// A line starting at its first stage.
    pub fn new(stages: Vec<QuestStage>) -> (q: QuestLine)
        ensures
            q.stages_seq() == stages@,
            q.position() == 0,
            q.wf(),
    {
        QuestLine { stages, current: 0 }
    }

    /// The active position, for display or saving.
    pub fn current_position(&self) -> (r: usize)
        ensures
            r == self.position(),
    {
        self.current
    }

    /// Whether the line is complete.
    pub fn is_complete(&self) -> (r: bool)
        ensures
            r == self.spec_complete(),
    {
        self.current >= self.stages.len()
    }

    /// Restore a saved position; a position past the end is read as
    /// complete.
    pub fn load_position(&mut self, at: usize)
        ensures
            final(self).stages_seq() == old(self).stages_seq(),
            final(self).position() == if at <= old(self).stages_seq().len() {
                at as int
            } else {
                old(self).stages_seq().len() as int
            },
            final(self).wf(),
    {
        let n = self.stages.len();
        self.current = if at <= n {
            at
        } else {
            n
        };
    }

    /// Advance the line by one stage: when the active stage's turn-in is
    /// covered, pay it, grant the stage's rewards, move forward and report
    /// true. Otherwise — and always once the line is complete — report
    /// false and mutate nothing.
    pub fn try_advance(&mut self, ledger: &mut ResourceLedger, caps: &mut Capabilities) -> (r:
        bool)
        ensures
            final(self).stages_seq() == old(self).stages_seq(),
            final(ledger).retired_ids() == old(ledger).retired_ids(),
            final(ledger).primary() == old(ledger).primary(),
            old(ledger).wf() ==> final(ledger).wf(),
            final(caps).tabs@ == old(caps).tabs@,
            final(caps).recipes@ == old(caps).recipes@,
            old(self).wf() ==> final(self).wf(),
            old(caps).wf() ==> final(caps).wf(),
            old(self).spec_complete() || !req_met(
                old(ledger).counts_seq(),
                old(ledger).retired_ids(),
                old(self).stages_seq()[old(self).position()].requirement@,
            ) ==> ({
                &&& !r
                &&& final(self).position() == old(self).position()
                &&& final(ledger).counts_seq() == old(ledger).counts_seq()
                &&& final(caps).flags@ == old(caps).flags@
            }),
            !old(self).spec_complete() && req_met(
                old(ledger).counts_seq(),
                old(ledger).retired_ids(),
                old(self).stages_seq()[old(self).position()].requirement@,
            ) ==> r && final(self).position() == old(self).position() + 1 && ({
                let st = old(self).stages_seq()[old(self).position()];
                let t = gains_applied(
                    paid_one(
                        old(ledger).counts_seq(),
                        old(ledger).retired_ids(),
                        st.requirement@,
                    ),
                    old(caps).flags@,
                    st.rewards.deep_view(),
                );
                final(ledger).counts_seq() == t.0 && final(caps).flags@ == t.1
            }),
    {
        let n = self.stages.len();
        if self.current >= n {
            return false;
        }
        let cur = self.current;
        let req_id = self.stages[cur].requirement.id.clone();
        let req_amount = self.stages[cur].requirement.amount;
        let retired = ledger.is_retired(req_id.as_str());
        let have = ledger.get(req_id.as_str());
        if !retired && have < req_amount {
            return false;
        }
        // Pay the turn-in.
        if !retired {
            ledger.set_count(req_id.as_str(), have - req_amount);
        }
        // Grant the stage rewards.
        let ghost st = self.stages_seq()[cur as int];
        let ghost goal = gains_applied(ledger.counts_seq(), caps.flags@, st.rewards.deep_view());
        let ghost gv = st.rewards.deep_view();
        proof {
            assert(gv.skip(0) =~= gv);
        }
        let m = self.stages[cur].rewards.len();
        let mut i: usize = 0;
        while i < m
            invariant
                i <= m,
                cur < self.stages_seq().len(),
                self.stages_seq() == old(self).stages_seq(),
                self.position() == cur as int,
                st == self.stages_seq()[cur as int],
                m == st.rewards@.len(),
                gv == st.rewards.deep_view(),
                gains_applied(ledger.counts_seq(), caps.flags@, gv.skip(i as int)) == goal,
                ledger.retired_ids() == old(ledger).retired_ids(),
                ledger.primary() == old(ledger).primary(),
                old(ledger).wf() ==> ledger.wf(),
                caps.tabs@ == old(caps).tabs@,
                caps.recipes@ == old(caps).recipes@,
                old(caps).wf() ==> caps.wf(),
            decreases m - i,
        {
            proof {
                assert(gv.skip(i as int)[0] == gv[i as int]);
                assert(gv.skip(i as int).drop_first() =~= gv.skip(i as int + 1));
                assert(st.rewards@[i as int]@ == gv[i as int]);
            }
            match &self.stages[cur].rewards[i] {
                QuestReward::Grant { id, amount } => {
                    ledger.add(id.as_str(), *amount);
                },
                QuestReward::SetFlag(f) => {
                    caps.flags.insert(f.as_str());
                },
            }
            i += 1;
        }
        proof {
            assert(gv.skip(m as int) =~= Seq::<QuestGain>::empty());
        }
        self.current = cur + 1;
        true
    }
}

} // verus!
