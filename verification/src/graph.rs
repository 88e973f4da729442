//! The unlock graph: a directed acyclic graph of research nodes, each with
//! a resource cost, prerequisite node ids, and reward effects, plus the
//! runtime set of unlocked node ids.
//!
//! A node moves from locked (prerequisites unmet) to unlockable
//! (prerequisites met) to unlocked — a terminal, monotonic state: ids are
//! only ever added to the unlocked set. [`UnlockGraph::unlock`] checks the
//! node exists, is not yet unlocked, has every prerequisite unlocked and
//! its whole cost covered; only then does it pay the cost, add the id and
//! apply every reward effect, as one atomic step. Any refusal changes
//! nothing and says exactly why.

use vstd::prelude::*;
use vstd::string::StrSliceExecFns;
use crate::ledger::{CostEntry, ResourceLedger, can_pay, paid, count_in, sub_to_zero, unique_ids,
    cost_ids_unique};
use crate::names::{NameSet, Capabilities};
use crate::strutil::str_eq;

verus! {

/// What unlocking a node grants, decoded once at data-load time.
#[derive(Debug, Clone)]
pub enum RewardEffect {
    /// Set a named capability flag.
    SetFlag(String),
    /// Unlock a named research tab.
    UnlockTab(String),
    /// Unlock a named recipe id.
    UnlockRecipe(String),
}

/// A reward effect over character sequences.
pub enum Reward {
    SetFlag(Seq<char>),
    UnlockTab(Seq<char>),
    UnlockRecipe(Seq<char>),
}

impl View for RewardEffect {
    type V = Reward;

    open spec fn view(&self) -> Reward {
        match self {
            RewardEffect::SetFlag(f) => Reward::SetFlag(f@),
            RewardEffect::UnlockTab(t) => Reward::UnlockTab(t@),
            RewardEffect::UnlockRecipe(r) => Reward::UnlockRecipe(r@),
        }
    }
}

impl DeepView for RewardEffect {
    type V = Reward;

    open spec fn deep_view(&self) -> Reward {
        self.view()
    }
}

/// A reward effect read from its stored string form: `recipe:` followed by
/// a recipe id unlocks that recipe, anything else sets a flag of that name.
pub open spec fn spec_parse_reward(s: Seq<char>) -> Reward {
    if s.len() >= 7 && s.subrange(0, 7) == "recipe:"@ {
        Reward::UnlockRecipe(s.subrange(7, s.len() as int))
    } else {
        Reward::SetFlag(s)
    }
}

/// Decode the stored string form of a reward effect.
pub fn parse_reward(s: &str) -> (r: RewardEffect)
    ensures
        r@ == spec_parse_reward(s@),
{
    proof {
        reveal_strlit("recipe:");
    }
    let n = s.unicode_len();
    if n >= 7 {
        let head = s.substring_char(0, 7);
        if str_eq(head, "recipe:") {
            let rest = s.substring_char(7, n);
            return RewardEffect::UnlockRecipe(rest.to_owned());
        }
    }
    RewardEffect::SetFlag(s.to_owned())
}

/// One gate-able piece of content: its identity, display data, cost,
/// prerequisites and rewards.
#[derive(Debug)]
pub struct UnlockNode {
    pub id: String,
    pub name: String,
    pub description: String,
    pub category: String,
    pub cost: Vec<CostEntry>,
    pub prerequisites: Vec<String>,
    pub rewards: Vec<RewardEffect>,
}

/// The first node with that id, if any.
pub open spec fn find_node(nodes: Seq<UnlockNode>, id: Seq<char>) -> Option<UnlockNode>
    decreases nodes.len(),
{
    if nodes.len() == 0 {
        None
    } else if nodes[0].id@ == id {
        Some(nodes[0])
    } else {
        find_node(nodes.drop_first(), id)
    }
}

/// The prerequisites not yet unlocked, in declaration order.
pub open spec fn missing_prereqs(prereqs: Seq<Seq<char>>, unlocked: Seq<Seq<char>>) -> Seq<
    Seq<char>,
>
    decreases prereqs.len(),
{
    if prereqs.len() == 0 {
        Seq::empty()
    } else {
        let rest = missing_prereqs(prereqs.drop_first(), unlocked);
        if unlocked.contains(prereqs[0]) {
            rest
        } else {
            seq![prereqs[0]] + rest
        }
    }
}

/// Per unsatisfied cost line, the resource and how much of it is lacking.
pub open spec fn shortfalls(
    s: Seq<(Seq<char>, u32)>,
    retired: Seq<Seq<char>>,
    cost: Seq<(Seq<char>, u32)>,
) -> Seq<(Seq<char>, u32)>
    decreases cost.len(),
{
    if cost.len() == 0 {
        Seq::empty()
    } else {
        let rest = shortfalls(s, retired, cost.drop_first());
        let e = cost[0];
        if !retired.contains(e.0) && count_in(s, e.0) < e.1 {
            seq![(e.0, sub_to_zero(e.1, count_in(s, e.0)))] + rest
        } else {
            rest
        }
    }
}

/// A name added to a set kept as a sequence: a member again is no change.
pub open spec fn add_name(s: Seq<Seq<char>>, x: Seq<char>) -> Seq<Seq<char>> {
    if s.contains(x) {
        s
    } else {
        s.push(x)
    }
}

/// The capability sets after applying one reward effect.
pub open spec fn reward_applied(
    flags: Seq<Seq<char>>,
    tabs: Seq<Seq<char>>,
    recipes: Seq<Seq<char>>,
    r: Reward,
) -> (Seq<Seq<char>>, Seq<Seq<char>>, Seq<Seq<char>>) {
    match r {
        Reward::SetFlag(f) => (add_name(flags, f), tabs, recipes),
        Reward::UnlockTab(t) => (flags, add_name(tabs, t), recipes),
        Reward::UnlockRecipe(c) => (flags, tabs, add_name(recipes, c)),
    }
}

/// The capability sets after applying every reward effect, first to last.
pub open spec fn rewards_applied(
    flags: Seq<Seq<char>>,
    tabs: Seq<Seq<char>>,
    recipes: Seq<Seq<char>>,
    rewards: Seq<Reward>,
) -> (Seq<Seq<char>>, Seq<Seq<char>>, Seq<Seq<char>>)
    decreases rewards.len(),
{
    if rewards.len() == 0 {
        (flags, tabs, recipes)
    } else {
        let t = reward_applied(flags, tabs, recipes, rewards[0]);
        rewards_applied(t.0, t.1, t.2, rewards.drop_first())
    }
}

/// Whether `id` is reachable: it names a node that is not yet unlocked and
/// whose every prerequisite is unlocked. Affordability is deliberately a
/// different question.
pub open spec fn spec_can_unlock(
    nodes: Seq<UnlockNode>,
    unlocked: Seq<Seq<char>>,
    id: Seq<char>,
) -> bool {
    match find_node(nodes, id) {
        None => false,
        Some(n) => !unlocked.contains(id) && missing_prereqs(
            n.prerequisites.deep_view(),
            unlocked,
        ).len() == 0,
    }
}

/// How an unlock request is decided.
pub enum UnlockCheck {
    /// No node of that id is declared.
    Absent,
    /// The id is already in the unlocked set.
    Already,
    /// These prerequisites are not yet unlocked.
    Missing(Seq<Seq<char>>),
    /// The cost is not covered; these resources are lacking.
    Unaffordable(Seq<(Seq<char>, u32)>),
    /// The unlock goes through.
    Approved,
}

/// The decision for an unlock request, checked in order: the node must be
/// declared, not yet unlocked, its prerequisites all unlocked, and its
/// whole cost covered.
pub open spec fn unlock_check(
    nodes: Seq<UnlockNode>,
    unlocked: Seq<Seq<char>>,
    counts: Seq<(Seq<char>, u32)>,
    retired: Seq<Seq<char>>,
    id: Seq<char>,
) -> UnlockCheck {
    match find_node(nodes, id) {
        None => UnlockCheck::Absent,
        Some(n) => if unlocked.contains(id) {
            UnlockCheck::Already
        } else {
            let miss = missing_prereqs(n.prerequisites.deep_view(), unlocked);
            if miss.len() > 0 {
                UnlockCheck::Missing(miss)
            } else if !can_pay(counts, retired, n.cost.deep_view()) {
                UnlockCheck::Unaffordable(shortfalls(counts, retired, n.cost.deep_view()))
            } else {
                UnlockCheck::Approved
            }
        },
    }
}

/// Why an unlock request was refused.
#[derive(Debug, Clone, PartialEq, Eq)]
pub enum UnlockError {
    /// No node of that id is declared.
    NotFound,
    /// The id is already unlocked; informational, not a failure.
    AlreadyUnlocked,
    /// The complete list of prerequisites not yet unlocked.
    PrerequisitesMissing(Vec<String>),
    /// Per lacking resource, how much more of it is needed.
    InsufficientResources(Vec<CostEntry>),
}

/// A granted unlock request.
#[derive(Debug, Clone, Copy, PartialEq, Eq)]
pub enum UnlockOutcome {
    Unlocked,
    AlreadyUnlocked,
}

/// A node's display state.
#[derive(Debug, Clone, Copy, PartialEq, Eq)]
pub enum NodeState {
    /// Some prerequisite is not unlocked.
    Locked,
    /// Every prerequisite is unlocked; the cost may or may not be payable.
    Unlockable,
    /// In the unlocked set; terminal.
    Unlocked,
}

/// The unlock graph: declared nodes plus the runtime unlocked set.
pub struct UnlockGraph {
    nodes: Vec<UnlockNode>,
    unlocked: NameSet,
}

impl UnlockGraph {
    /// The declared nodes, in declaration order.
    pub closed spec fn nodes_seq(self) -> Seq<UnlockNode> {
        self.nodes@
    }

    /// The unlocked node ids, in unlock order.
    pub closed spec fn unlocked_ids(self) -> Seq<Seq<char>> {
        self.unlocked@
    }

    /// Node ids are unique, no node costs a resource twice, and the
    /// unlocked set holds no duplicates.
    pub open spec fn wf(self) -> bool {
        &&& forall|i: int, j: int|
            0 <= i < j < self.nodes_seq().len() ==> self.nodes_seq()[i].id@
                != self.nodes_seq()[j].id@
        &&& forall|i: int|
            0 <= i < self.nodes_seq().len() ==> unique_ids(
                (#[trigger] self.nodes_seq()[i]).cost.deep_view(),
            )
        &&& forall|i: int, j: int|
            0 <= i < j < self.unlocked_ids().len() ==> self.unlocked_ids()[i]
                != self.unlocked_ids()[j]
    }

    /// An empty graph: nothing is declared, nothing unlocked.
    pub fn new() -> (g: UnlockGraph)
        ensures
            g.nodes_seq() == Seq::<UnlockNode>::empty(),
            g.unlocked_ids() == Seq::<Seq<char>>::empty(),
            g.wf(),
    {
        UnlockGraph { nodes: Vec::new(), unlocked: NameSet::new() }
    }

    /// Declare a node; a repeated id or a cost naming a resource twice is
    /// refused.
    pub fn add_node(&mut self, node: UnlockNode) -> (r: bool)
        ensures
            r == (find_node(old(self).nodes_seq(), node.id@) is None && unique_ids(
                node.cost.deep_view(),
            )),
            r ==> final(self).nodes_seq() == old(self).nodes_seq().push(node),
            !r ==> final(self).nodes_seq() == old(self).nodes_seq(),
            final(self).unlocked_ids() == old(self).unlocked_ids(),
            old(self).wf() ==> final(self).wf(),
    {
        match self.find_node_idx(node.id.as_str()) {
            Some(_) => false,
            None => {
                if !cost_ids_unique(&node.cost) {
                    return false;
                }
                let ghost before = self.nodes_seq();
                self.nodes.push(node);
                proof {
                    if old(self).wf() {
                        assert forall|i: int, j: int|
                            0 <= i < j < self.nodes_seq().len() implies self.nodes_seq()[i].id@
                            != self.nodes_seq()[j].id@ by {
                            if j < before.len() {
                            } else {
                                assert(self.nodes_seq()[i] == before[i]);
                            }
                        }
                    }
                }
                true
            },
        }
    }

    /// The position of the first node of that id, if any.
    fn find_node_idx(&self, id: &str) -> (r: Option<usize>)
        ensures
            match r {
                Some(i) => i < self.nodes_seq().len() && self.nodes_seq()[i as int].id@ == id@
                    && find_node(self.nodes_seq(), id@) == Some(self.nodes_seq()[i as int])
                    && forall|j: int| 0 <= j < i ==> self.nodes_seq()[j].id@ != id@,
                None => find_node(self.nodes_seq(), id@) is None && forall|j: int|
                    0 <= j < self.nodes_seq().len() ==> self.nodes_seq()[j].id@ != id@,
            },
    {
        let ghost s = self.nodes_seq();
        proof {
            assert(s.skip(0) =~= s);
        }
        let n = self.nodes.len();
        let mut i: usize = 0;
        while i < n
            invariant
                i <= n,
                n == self.nodes.len(),
                s == self.nodes_seq(),
                find_node(s, id@) == find_node(s.skip(i as int), id@),
                forall|j: int| 0 <= j < i ==> s[j].id@ != id@,
            decreases n - i,
        {
            let hit = str_eq(self.nodes[i].id.as_str(), id);
            proof {
                assert(s.skip(i as int)[0] == s[i as int]);
                assert(s.skip(i as int).drop_first() =~= s.skip(i as int + 1));
            }
            if hit {
                return Some(i);
            }
            i += 1;
        }
        proof {
            assert(s.skip(n as int) =~= Seq::<UnlockNode>::empty());
        }
        None
    }

    /// The category of the first declared node, if any: the fallback
    /// research tab when a save names none.
    pub fn first_category(&self) -> (r: Option<String>)
        ensures
            match r {
                Some(c) => self.nodes_seq().len() > 0 && c@ == self.nodes_seq()[0].category@,
                None => self.nodes_seq().len() == 0,
            },
    {
        if self.nodes.len() > 0 {
            Some(self.nodes[0].category.clone())
        } else {
            None
        }
    }

    /// Whether some declared node's category is `name`.
    pub fn has_category(&self, name: &str) -> (r: bool)
        ensures
            r == category_declared(self.nodes_seq(), name@),
    {
        let ghost s = self.nodes_seq();
        let n = self.nodes.len();
        let mut i: usize = 0;
        while i < n
            invariant
                i <= n,
                n == self.nodes.len(),
                s == self.nodes_seq(),
                forall|j: int| 0 <= j < i ==> (#[trigger] s[j]).category@ != name@,
            decreases n - i,
        {
            if str_eq(self.nodes[i].category.as_str(), name) {
                proof {
                    assert(s[i as int].category@ == name@);
                }
                return true;
            }
            i += 1;
        }
        false
    }

    /// Whether `id` is in the unlocked set.
    pub fn is_unlocked(&self, id: &str) -> (r: bool)
        ensures
            r == self.unlocked_ids().contains(id@),
    {
        self.unlocked.contains(id)
    }

    /// Whether `id` is reachable: declared, not yet unlocked, and with
    /// every prerequisite unlocked. Affordability is deliberately excluded.
    pub fn can_unlock(&self, id: &str) -> (r: bool)
        ensures
            r == spec_can_unlock(self.nodes_seq(), self.unlocked_ids(), id@),
    {
        let ni = match self.find_node_idx(id) {
            Some(i) => i,
            None => {
                return false;
            },
        };
        if self.unlocked.contains(id) {
            return false;
        }
        let missing = collect_missing(&self.nodes[ni].prerequisites, &self.unlocked);
        missing.len() == 0
    }

    /// The display state of node `id`, if it is declared.
    pub fn node_state(&self, id: &str) -> (r: Option<NodeState>)
        ensures
            r == match find_node(self.nodes_seq(), id@) {
                Some(_) => Some(
                    if self.unlocked_ids().contains(id@) {
                        NodeState::Unlocked
                    } else if spec_can_unlock(self.nodes_seq(), self.unlocked_ids(), id@) {
                        NodeState::Unlockable
                    } else {
                        NodeState::Locked
                    },
                ),
                None => None::<NodeState>,
            },
    {
        match self.find_node_idx(id) {
            Some(_) => {
                if self.unlocked.contains(id) {
                    Some(NodeState::Unlocked)
                } else if self.can_unlock(id) {
                    Some(NodeState::Unlockable)
                } else {
                    Some(NodeState::Locked)
                }
            },
            None => None,
        }
    }

    /// The unlocked node ids, in unlock order, for display or saving.
    pub fn unlocked_names(&self) -> (r: Vec<String>)
        ensures
            r.deep_view() == self.unlocked_ids(),
    {
        self.unlocked.to_names()
    }

    /// Restore the unlocked set from a saved list; repeated ids collapse.
    pub fn load_unlocked(&mut self, ids: &Vec<String>)
        ensures
            final(self).unlocked_ids() == crate::names::dedup(ids.deep_view()),
            final(self).nodes_seq() == old(self).nodes_seq(),
            old(self).wf() ==> final(self).wf(),
    {
        self.unlocked = NameSet::from_names(ids);
    }

    /// Unlock `id`: check the node is declared, not yet unlocked, its
    /// prerequisites met and its cost covered; then pay the cost, add the
    /// id to the unlocked set and apply every reward effect, atomically.
    /// Any refusal changes nothing and carries the full diagnosis.
    pub fn unlock(&mut self, ledger: &mut ResourceLedger, caps: &mut Capabilities, id: &str) -> (r:
        Result<UnlockOutcome, UnlockError>)
        ensures
            final(self).nodes_seq() == old(self).nodes_seq(),
            final(ledger).retired_ids() == old(ledger).retired_ids(),
            final(ledger).primary() == old(ledger).primary(),
            old(ledger).wf() ==> final(ledger).wf(),
            old(self).wf() ==> final(self).wf(),
            old(caps).wf() ==> final(caps).wf(),
            ({
                let chk = unlock_check(
                    old(self).nodes_seq(),
                    old(self).unlocked_ids(),
                    old(ledger).counts_seq(),
                    old(ledger).retired_ids(),
                    id@,
                );
                match r {
                    Ok(UnlockOutcome::Unlocked) => {
                        &&& chk is Approved
                        &&& final(self).unlocked_ids() == old(self).unlocked_ids().push(id@)
                        &&& match find_node(old(self).nodes_seq(), id@) {
                            Some(n) => {
                                &&& final(ledger).counts_seq() == paid(
                                    old(ledger).counts_seq(),
                                    old(ledger).retired_ids(),
                                    n.cost.deep_view(),
                                )
                                &&& ({
                                    let t = rewards_applied(
                                        old(caps).flags@,
                                        old(caps).tabs@,
                                        old(caps).recipes@,
                                        n.rewards.deep_view(),
                                    );
                                    &&& final(caps).flags@ == t.0
                                    &&& final(caps).tabs@ == t.1
                                    &&& final(caps).recipes@ == t.2
                                })
                            },
                            None => false,
                        }
                    },
                    Ok(UnlockOutcome::AlreadyUnlocked) => false,
                    Err(e) => {
                        &&& final(self).unlocked_ids() == old(self).unlocked_ids()
                        &&& final(ledger).counts_seq() == old(ledger).counts_seq()
                        &&& final(caps).flags@ == old(caps).flags@
                        &&& final(caps).tabs@ == old(caps).tabs@
                        &&& final(caps).recipes@ == old(caps).recipes@
                        &&& match e {
                            UnlockError::NotFound => chk is Absent,
                            UnlockError::AlreadyUnlocked => chk is Already,
                            UnlockError::PrerequisitesMissing(m) => chk matches UnlockCheck::Missing(
                                miss,
                            ) && m.deep_view() == miss,
                            UnlockError::InsufficientResources(s) => chk matches UnlockCheck::Unaffordable(
                                sf,
                            ) && s.deep_view() == sf,
                        }
                    },
                }
            }),
    {
        let ni = match self.find_node_idx(id) {
            Some(i) => i,
            None => {
                return Err(UnlockError::NotFound);
            },
        };
        if self.unlocked.contains(id) {
            return Err(UnlockError::AlreadyUnlocked);
        }
        let missing = collect_missing(&self.nodes[ni].prerequisites, &self.unlocked);
        if missing.len() > 0 {
            return Err(UnlockError::PrerequisitesMissing(missing));
        }
        let cost = &self.nodes[ni].cost;
        if !ledger.can_afford(cost) {
            let sf = collect_shortfalls(ledger, cost);
            return Err(UnlockError::InsufficientResources(sf));
        }
        ledger.spend(cost);
        self.unlocked.insert(id);
        apply_rewards(caps, &self.nodes[ni].rewards);
        Ok(UnlockOutcome::Unlocked)
    }
}

/// The prerequisites of a node not yet in `unlocked`, in order.
fn collect_missing(prereqs: &Vec<String>, unlocked: &NameSet) -> (r: Vec<String>)
    ensures
        r.deep_view() == missing_prereqs(prereqs.deep_view(), unlocked@),
{
    let ghost pv = prereqs.deep_view();
    proof {
        assert(pv.skip(0) =~= pv);
    }
    let n = prereqs.len();
    let mut r: Vec<String> = Vec::new();
    let mut i: usize = 0;
    while i < n
        invariant
            i <= n,
            n == prereqs.len(),
            pv == prereqs.deep_view(),
            missing_prereqs(pv, unlocked@) == r.deep_view() + missing_prereqs(
                pv.skip(i as int),
                unlocked@,
            ),
        decreases n - i,
    {
        let ghost before = r.deep_view();
        proof {
            assert(pv.skip(i as int)[0] == pv[i as int]);
            assert(pv.skip(i as int).drop_first() =~= pv.skip(i as int + 1));
        }
        if !unlocked.contains(prereqs[i].as_str()) {
            let x = prereqs[i].clone();
            proof {
                assert(x.deep_view() == pv[i as int]);
            }
            r.push(x);
            proof {
                assert(r.deep_view() =~= before.push(pv[i as int]));
                assert(before.push(pv[i as int]) + missing_prereqs(pv.skip(i as int + 1), unlocked@)
                    =~= before + (seq![pv[i as int]] + missing_prereqs(
                    pv.skip(i as int + 1),
                    unlocked@,
                )));
            }
        }
        i += 1;
    }
    proof {
        assert(pv.skip(n as int) =~= Seq::<Seq<char>>::empty());
        assert(r.deep_view() + Seq::<Seq<char>>::empty() =~= r.deep_view());
    }
    r
}

/// The lacking resources of a cost against a ledger, in cost order.
fn collect_shortfalls(ledger: &ResourceLedger, cost: &Vec<CostEntry>) -> (r: Vec<CostEntry>)
    ensures
        r.deep_view() == shortfalls(ledger.counts_seq(), ledger.retired_ids(), cost.deep_view()),
{
    let ghost cv = cost.deep_view();
    let ghost s = ledger.counts_seq();
    let ghost ret = ledger.retired_ids();
    proof {
        assert(cv.skip(0) =~= cv);
    }
    let n = cost.len();
    let mut r: Vec<CostEntry> = Vec::new();
    let mut i: usize = 0;
    while i < n
        invariant
            i <= n,
            n == cost.len(),
            cv == cost.deep_view(),
            s == ledger.counts_seq(),
            ret == ledger.retired_ids(),
            shortfalls(s, ret, cv) == r.deep_view() + shortfalls(s, ret, cv.skip(i as int)),
        decreases n - i,
    {
        let ghost before = r.deep_view();
        proof {
            assert(cv.skip(i as int)[0] == cv[i as int]);
            assert(cv.skip(i as int).drop_first() =~= cv.skip(i as int + 1));
            assert(cv[i as int] == (cost[i as int].id@, cost[i as int].amount));
        }
        let e = &cost[i];
        if !ledger.is_retired(e.id.as_str()) {
            let have = ledger.get(e.id.as_str());
            if have < e.amount {
                let x = CostEntry { id: e.id.clone(), amount: e.amount - have };
                proof {
                    assert(x.deep_view() == (cv[i as int].0, sub_to_zero(
                        cv[i as int].1,
                        count_in(s, cv[i as int].0),
                    )));
                }
                r.push(x);
                proof {
                    assert(r.deep_view() =~= before.push(x.deep_view()));
                    assert(before.push(x.deep_view()) + shortfalls(s, ret, cv.skip(i as int + 1))
                        =~= before + (seq![x.deep_view()] + shortfalls(
                        s,
                        ret,
                        cv.skip(i as int + 1),
                    )));
                }
            }
        }
        i += 1;
    }
    proof {
        assert(cv.skip(n as int) =~= Seq::<(Seq<char>, u32)>::empty());
        assert(r.deep_view() + Seq::<(Seq<char>, u32)>::empty() =~= r.deep_view());
    }
    r
}

/// Apply every reward effect to the capability sets, in order. Applying an
/// effect twice is a no-op: the sets only record membership.
fn apply_rewards(caps: &mut Capabilities, rewards: &Vec<RewardEffect>)
    ensures
        ({
            let t = rewards_applied(
                old(caps).flags@,
                old(caps).tabs@,
                old(caps).recipes@,
                rewards.deep_view(),
            );
            final(caps).flags@ == t.0 && final(caps).tabs@ == t.1 && final(caps).recipes@ == t.2
        }),
        old(caps).wf() ==> final(caps).wf(),
{
    let ghost rv = rewards.deep_view();
    let ghost goal = rewards_applied(old(caps).flags@, old(caps).tabs@, old(caps).recipes@, rv);
    proof {
        assert(rv.skip(0) =~= rv);
    }
    let n = rewards.len();
    let mut i: usize = 0;
    while i < n
        invariant
            i <= n,
            n == rewards.len(),
            rv == rewards.deep_view(),
            rewards_applied(caps.flags@, caps.tabs@, caps.recipes@, rv.skip(i as int)) == goal,
            old(caps).wf() ==> caps.wf(),
        decreases n - i,
    {
        proof {
            assert(rv.skip(i as int)[0] == rv[i as int]);
            assert(rv.skip(i as int).drop_first() =~= rv.skip(i as int + 1));
            assert(rewards@[i as int]@ == rv[i as int]);
        }
        match &rewards[i] {
            RewardEffect::SetFlag(f) => {
                caps.flags.insert(f.as_str());
            },
            RewardEffect::UnlockTab(t) => {
                caps.tabs.insert(t.as_str());
            },
            RewardEffect::UnlockRecipe(c) => {
                caps.recipes.insert(c.as_str());
            },
        }
        i += 1;
    }
    proof {
        assert(rv.skip(n as int) =~= Seq::<Reward>::empty());
    }
}

/// An empty missing list means every prerequisite is unlocked, and the
/// other way round.
pub proof fn lemma_missing_empty(prereqs: Seq<Seq<char>>, unlocked: Seq<Seq<char>>)
    ensures
        missing_prereqs(prereqs, unlocked).len() == 0 <==> forall|j: int|
            0 <= j < prereqs.len() ==> unlocked.contains(#[trigger] prereqs[j]),
    decreases prereqs.len(),
{
    if prereqs.len() > 0 {
        lemma_missing_empty(prereqs.drop_first(), unlocked);
        let pd = prereqs.drop_first();
        assert(forall|j: int| 0 <= j < pd.len() ==> pd[j] == prereqs[j + 1]);
        if missing_prereqs(prereqs, unlocked).len() == 0 {
            assert(unlocked.contains(prereqs[0]));
            assert(missing_prereqs(pd, unlocked).len() == 0);
            assert forall|j: int| 0 <= j < prereqs.len() implies unlocked.contains(
                #[trigger] prereqs[j],
            ) by {
                if j > 0 {
                    assert(unlocked.contains(pd[j - 1]));
                }
            }
        } else {
            if forall|j: int| 0 <= j < prereqs.len() ==> unlocked.contains(#[trigger] prereqs[j]) {
                assert(unlocked.contains(prereqs[0]));
                assert forall|j: int| 0 <= j < pd.len() implies unlocked.contains(
                    #[trigger] pd[j],
                ) by {
                    assert(unlocked.contains(prereqs[j + 1]));
                }
                assert(missing_prereqs(pd, unlocked).len() == 0);
                assert(false);
            }
        }
    }
}

/// A found node stands in the sequence.
pub proof fn lemma_find_node_index(nodes: Seq<UnlockNode>, id: Seq<char>)
    requires
        find_node(nodes, id) is Some,
    ensures
        exists|k: int|
            0 <= k < nodes.len() && nodes[k] == find_node(nodes, id).unwrap() && (
            #[trigger] nodes[k]).id@ == id,
    decreases nodes.len(),
{
    if nodes.len() > 0 && nodes[0].id@ != id {
        lemma_find_node_index(nodes.drop_first(), id);
        let k0 = choose|k: int|
            0 <= k < nodes.drop_first().len() && nodes.drop_first()[k] == find_node(
                nodes.drop_first(),
                id,
            ).unwrap() && (#[trigger] nodes.drop_first()[k]).id@ == id;
        assert(nodes[k0 + 1] == nodes.drop_first()[k0]);
    }
}

/// Whether some node of `nodes` is declared under the category `name`.
pub open spec fn category_declared(nodes: Seq<UnlockNode>, name: Seq<char>) -> bool {
    exists|i: int| 0 <= i < nodes.len() && (#[trigger] nodes[i]).category@ == name
}

/// The unlocked set is closed under the prerequisite relation: every
/// unlocked node has all of its prerequisites unlocked.
pub open spec fn closed_under_prereqs(nodes: Seq<UnlockNode>, unlocked: Seq<Seq<char>>) -> bool {
    forall|k: int|
        0 <= k < nodes.len() && unlocked.contains((#[trigger] nodes[k]).id@) ==> forall|j: int|
            0 <= j < nodes[k].prerequisites.deep_view().len() ==> unlocked.contains(
                #[trigger] nodes[k].prerequisites.deep_view()[j],
            )
}

/// Law: an unlock is approved only when every prerequisite of the node is
/// in the unlocked set at that moment.
pub proof fn lemma_unlock_requires_prereqs(
    nodes: Seq<UnlockNode>,
    unlocked: Seq<Seq<char>>,
    counts: Seq<(Seq<char>, u32)>,
    retired: Seq<Seq<char>>,
    id: Seq<char>,
)
    requires
        unlock_check(nodes, unlocked, counts, retired, id) is Approved,
    ensures
        match find_node(nodes, id) {
            Some(n) => forall|j: int|
                0 <= j < n.prerequisites.deep_view().len() ==> unlocked.contains(
                    #[trigger] n.prerequisites.deep_view()[j],
                ),
            None => false,
        },
{
    let n = find_node(nodes, id).unwrap();
    lemma_missing_empty(n.prerequisites.deep_view(), unlocked);
}

/// Law: a granted unlock keeps the unlocked set closed under the
/// prerequisite relation — the set can never come to hold a node whose
/// prerequisites it lacks.
pub proof fn lemma_unlock_preserves_closure(
    nodes: Seq<UnlockNode>,
    unlocked: Seq<Seq<char>>,
    counts: Seq<(Seq<char>, u32)>,
    retired: Seq<Seq<char>>,
    id: Seq<char>,
)
    requires
        forall|i: int, j: int| 0 <= i < j < nodes.len() ==> nodes[i].id@ != nodes[j].id@,
        closed_under_prereqs(nodes, unlocked),
        unlock_check(nodes, unlocked, counts, retired, id) is Approved,
    ensures
        closed_under_prereqs(nodes, unlocked.push(id)),
{
    let n = find_node(nodes, id).unwrap();
    lemma_find_node_index(nodes, id);
    let nk = choose|k: int|
        0 <= k < nodes.len() && nodes[k] == n && (#[trigger] nodes[k]).id@ == id;
    lemma_missing_empty(n.prerequisites.deep_view(), unlocked);
    let grown = unlocked.push(id);
    assert forall|x: Seq<char>| unlocked.contains(x) implies grown.contains(x) by {
        let w = choose|w: int| 0 <= w < unlocked.len() && unlocked[w] == x;
        assert(grown[w] == x);
    }
    assert forall|k: int|
        0 <= k < nodes.len() && grown.contains((#[trigger] nodes[k]).id@) implies forall|j: int|
        0 <= j < nodes[k].prerequisites.deep_view().len() ==> grown.contains(
            #[trigger] nodes[k].prerequisites.deep_view()[j],
        ) by {
        let w = choose|w: int| 0 <= w < grown.len() && grown[w] == nodes[k].id@;
        if w < unlocked.len() {
            assert(unlocked.contains(nodes[k].id@));
            assert forall|j: int|
                0 <= j < nodes[k].prerequisites.deep_view().len() implies grown.contains(
                #[trigger] nodes[k].prerequisites.deep_view()[j],
            ) by {
                assert(unlocked.contains(nodes[k].prerequisites.deep_view()[j]));
            }
        } else {
            assert(nodes[k].id@ == id);
            assert(k == nk);
            assert forall|j: int|
                0 <= j < nodes[k].prerequisites.deep_view().len() implies grown.contains(
                #[trigger] nodes[k].prerequisites.deep_view()[j],
            ) by {
                assert(unlocked.contains(nodes[k].prerequisites.deep_view()[j]));
            }
        }
    }
}

/// Law: once an id is unlocked and still declared, a repeated unlock
/// request is decided as already unlocked — and the unlock contract then
/// guarantees that nothing changes.
pub proof fn lemma_unlock_twice(
    nodes: Seq<UnlockNode>,
    unlocked: Seq<Seq<char>>,
    counts: Seq<(Seq<char>, u32)>,
    retired: Seq<Seq<char>>,
    id: Seq<char>,
)
    requires
        find_node(nodes, id) is Some,
        unlocked.contains(id),
    ensures
        unlock_check(nodes, unlocked, counts, retired, id) is Already,
{
}

/// Law: a node can no longer be unlocked immediately after it was: its id
/// is in the unlocked set, which settles the question.
pub proof fn lemma_can_unlock_false_after(
    nodes: Seq<UnlockNode>,
    unlocked: Seq<Seq<char>>,
    id: Seq<char>,
)
    ensures
        !spec_can_unlock(nodes, unlocked.push(id), id),
{
    assert(unlocked.push(id)[unlocked.len() as int] == id);
    assert(unlocked.push(id).contains(id));
}

} // verus!
