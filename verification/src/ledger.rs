//! The resource ledger: a mapping from resource identifier to an unsigned
//! count, the single source of truth for every countable game quantity.
//!
//! Unknown identifiers are not an error: their count is zero. Identifiers
//! on the retired list stand for resources removed from the game; a cost
//! that names one is treated as satisfied, never as a failure. One
//! distinguished identifier is the primary currency, whose increments clamp
//! to a capacity ceiling. No operation can drive a count below zero: every
//! decrement is pre-validated by [`ResourceLedger::can_afford`] and clamped
//! besides.

use vstd::prelude::*;
use crate::imap::{im_seq, lookup, upsert, lemma_lookup_upsert, lemma_lookup_absent,
    lemma_lookup_present, im_new, im_get, im_insert, im_entries};
use crate::strutil::str_eq;

verus! {

/// One line of a cost or a grant: a resource identifier and an amount.
#[derive(Clone, Debug, PartialEq, Eq)]
pub struct CostEntry {
    pub id: String,
    pub amount: u32,
}

impl View for CostEntry {
    type V = (Seq<char>, u32);

    open spec fn view(&self) -> (Seq<char>, u32) {
        (self.id@, self.amount)
    }
}

impl DeepView for CostEntry {
    type V = (Seq<char>, u32);

    open spec fn deep_view(&self) -> (Seq<char>, u32) {
        self.view()
    }
}

/// The count stored under `id`, zero when absent.
pub open spec fn count_in(s: Seq<(Seq<char>, u32)>, id: Seq<char>) -> u32 {
    match lookup(s, id) {
        Some(c) => c,
        None => 0,
    }
}

/// Addition that stops at the largest representable count.
pub open spec fn add_sat(a: u32, b: u32) -> u32 {
    if a + b <= u32::MAX {
        (a + b) as u32
    } else {
        u32::MAX
    }
}

/// Addition that stops at a capacity ceiling.
pub open spec fn add_to_cap(a: u32, b: u32, cap: u32) -> u32 {
    if a + b <= cap {
        (a + b) as u32
    } else {
        cap
    }
}

/// Subtraction that stops at zero.
pub open spec fn sub_to_zero(a: u32, b: u32) -> u32 {
    if a >= b {
        (a - b) as u32
    } else {
        0
    }
}

/// No two entries name the same resource.
pub open spec fn unique_ids(cost: Seq<(Seq<char>, u32)>) -> bool {
    forall|i: int, j: int| 0 <= i < j < cost.len() ==> cost[i].0 != cost[j].0
}

/// Whether counts `s` satisfy every line of `cost`: the line's resource is
/// retired, or at least the required amount is held.
pub open spec fn can_pay(
    s: Seq<(Seq<char>, u32)>,
    retired: Seq<Seq<char>>,
    cost: Seq<(Seq<char>, u32)>,
) -> bool {
    forall|i: int|
        0 <= i < cost.len() ==> retired.contains(cost[i].0) || count_in(s, cost[i].0) >= cost[i].1
}

/// The counts after paying one cost line: a retired resource is skipped,
/// any other has the amount taken from its count, stopping at zero.
pub open spec fn paid_one(
    s: Seq<(Seq<char>, u32)>,
    retired: Seq<Seq<char>>,
    e: (Seq<char>, u32),
) -> Seq<(Seq<char>, u32)> {
    if retired.contains(e.0) {
        s
    } else {
        upsert(s, e.0, sub_to_zero(count_in(s, e.0), e.1))
    }
}

/// The counts after paying every line of a cost, first to last.
pub open spec fn paid(
    s: Seq<(Seq<char>, u32)>,
    retired: Seq<Seq<char>>,
    cost: Seq<(Seq<char>, u32)>,
) -> Seq<(Seq<char>, u32)>
    decreases cost.len(),
{
    if cost.len() == 0 {
        s
    } else {
        paid(paid_one(s, retired, cost[0]), retired, cost.drop_first())
    }
}

/// The player's resources.
pub struct ResourceLedger {
    counts: indexmap::IndexMap<String, u32>,
    primary_id: String,
    retired: Vec<String>,
}

impl ResourceLedger {
    /// The stored entries, in insertion order.
    pub closed spec fn counts_seq(self) -> Seq<(Seq<char>, u32)> {
        im_seq(self.counts)
    }

    /// The identifiers of retired resources.
    pub closed spec fn retired_ids(self) -> Seq<Seq<char>> {
        self.retired.deep_view()
    }

    /// The identifier of the capacity-limited primary currency.
    pub closed spec fn primary(self) -> Seq<char> {
        self.primary_id@
    }

    /// The count held for `id`; zero for an identifier never seen.
    pub open spec fn spec_count(self, id: Seq<char>) -> u32 {
        count_in(self.counts_seq(), id)
    }

    /// Whether `id` names a retired resource.
    pub open spec fn spec_retired(self, id: Seq<char>) -> bool {
        self.retired_ids().contains(id)
    }

    /// Whether every line of `cost` is satisfied: its resource is retired,
    /// or at least the required amount is held.
    pub open spec fn affords(self, cost: Seq<(Seq<char>, u32)>) -> bool {
        can_pay(self.counts_seq(), self.retired_ids(), cost)
    }

    /// No resource appears twice among the stored entries. Every ledger
    /// the operations build keeps this: it starts empty, and every store
    /// goes through [`upsert`], which updates an existing entry in place.
    pub open spec fn wf(self) -> bool {
        unique_ids(self.counts_seq())
    }

    /// An empty ledger with the given primary currency and retired list.
    pub fn new(primary_id: String, retired: Vec<String>) -> (l: ResourceLedger)
        ensures
            l.counts_seq() == Seq::<(Seq<char>, u32)>::empty(),
            l.primary() == primary_id@,
            l.retired_ids() == retired.deep_view(),
            l.wf(),
    {
        ResourceLedger { counts: im_new(), primary_id, retired }
    }

    /// The identifier of the primary currency, for callers that debit it.
    pub fn primary_name(&self) -> (r: String)
        ensures
            r@ == self.primary(),
    {
        self.primary_id.clone()
    }

    /// The count held for `id`, zero when unknown.
    pub fn get(&self, id: &str) -> (r: u32)
        ensures
            r == self.spec_count(id@),
    {
        match im_get(&self.counts, id) {
            Some(v) => v,
            None => 0,
        }
    }

    /// Whether `id` names a retired resource.
    pub fn is_retired(&self, id: &str) -> (r: bool)
        ensures
            r == self.spec_retired(id@),
    {
        let n = self.retired.len();
        let mut i: usize = 0;
        while i < n
            invariant
                i <= n,
                n == self.retired.len(),
                forall|j: int| 0 <= j < i ==> self.retired_ids()[j] != id@,
            decreases n - i,
        {
            if str_eq(self.retired[i].as_str(), id) {
                proof {
                    assert(self.retired_ids()[i as int] == id@);
                }
                return true;
            }
            i += 1;
        }
        false
    }

    /// Store `value` as the count for `id`.
    pub fn set_count(&mut self, id: &str, value: u32)
        ensures
            final(self).counts_seq() == upsert(old(self).counts_seq(), id@, value),
            final(self).retired_ids() == old(self).retired_ids(),
            final(self).primary() == old(self).primary(),
            old(self).wf() ==> final(self).wf(),
    {
        proof {
            if old(self).wf() {
                lemma_upsert_unique(old(self).counts_seq(), id@, value);
            }
        }
        im_insert(&mut self.counts, id.to_owned(), value);
    }

    /// Add `amount` to the count for `id`, stopping at the largest
    /// representable count; an identifier never seen starts from zero.
    pub fn add(&mut self, id: &str, amount: u32)
        ensures
            final(self).counts_seq() == upsert(
                old(self).counts_seq(),
                id@,
                add_sat(old(self).spec_count(id@), amount),
            ),
            final(self).retired_ids() == old(self).retired_ids(),
            final(self).primary() == old(self).primary(),
            old(self).wf() ==> final(self).wf(),
    {
        let cur = self.get(id);
        let newv = if cur <= u32::MAX - amount {
            cur + amount
        } else {
            u32::MAX
        };
        self.set_count(id, newv);
    }

    /// Add `amount` to the count for `id`, inserting it first when absent.
    pub fn increment_or_insert(&mut self, id: &str, amount: u32)
        ensures
            final(self).counts_seq() == upsert(
                old(self).counts_seq(),
                id@,
                add_sat(old(self).spec_count(id@), amount),
            ),
            final(self).retired_ids() == old(self).retired_ids(),
            final(self).primary() == old(self).primary(),
            old(self).wf() ==> final(self).wf(),
    {
        self.add(id, amount);
    }

    /// Add `amount` to the primary currency, clamping the result to
    /// `capacity`.
    pub fn add_clamped(&mut self, amount: u32, capacity: u32)
        ensures
            final(self).counts_seq() == upsert(
                old(self).counts_seq(),
                old(self).primary(),
                add_to_cap(old(self).spec_count(old(self).primary()), amount, capacity),
            ),
            final(self).retired_ids() == old(self).retired_ids(),
            final(self).primary() == old(self).primary(),
            old(self).wf() ==> final(self).wf(),
    {
        let pid = self.primary_id.clone();
        let cur = self.get(pid.as_str());
        let grown = if cur <= u32::MAX - amount {
            cur + amount
        } else {
            u32::MAX
        };
        let newv = if grown <= capacity {
            grown
        } else {
            capacity
        };
        proof {
            assert(newv == add_to_cap(old(self).spec_count(old(self).primary()), amount, capacity));
        }
        self.set_count(pid.as_str(), newv);
    }

    /// Whether every line of `cost` is satisfied by this ledger.
    pub fn can_afford(&self, cost: &Vec<CostEntry>) -> (r: bool)
        ensures
            r == self.affords(cost.deep_view()),
    {
        let ghost dv = cost.deep_view();
        let n = cost.len();
        let mut i: usize = 0;
        while i < n
            invariant
                i <= n,
                n == cost.len(),
                dv == cost.deep_view(),
                forall|j: int|
                    0 <= j < i ==> self.spec_retired(dv[j].0) || self.spec_count(dv[j].0)
                        >= dv[j].1,
            decreases n - i,
        {
            let e = &cost[i];
            if !self.is_retired(e.id.as_str()) {
                if self.get(e.id.as_str()) < e.amount {
                    proof {
                        assert(dv[i as int] == (e.id@, e.amount));
                        assert(!(self.spec_retired(dv[i as int].0) || self.spec_count(
                            dv[i as int].0,
                        ) >= dv[i as int].1));
                    }
                    return false;
                }
            }
            proof {
                assert(dv[i as int] == (e.id@, e.amount));
            }
            i += 1;
        }
        true
    }

    /// Pay `cost`: take every line's amount from its resource's count,
    /// skipping retired resources. Callers check affordability first; the
    /// check-then-spend pair is one logical transaction.
    pub fn spend(&mut self, cost: &Vec<CostEntry>)
        requires
            old(self).affords(cost.deep_view()),
        ensures
            final(self).counts_seq() == paid(
                old(self).counts_seq(),
                old(self).retired_ids(),
                cost.deep_view(),
            ),
            final(self).retired_ids() == old(self).retired_ids(),
            final(self).primary() == old(self).primary(),
            old(self).wf() ==> final(self).wf(),
    {
        let ghost dv = cost.deep_view();
        let ghost s0 = old(self).counts_seq();
        let ghost ret = old(self).retired_ids();
        proof {
            assert(dv.skip(0) =~= dv);
        }
        let n = cost.len();
        let mut i: usize = 0;
        while i < n
            invariant
                i <= n,
                n == cost.len(),
                dv == cost.deep_view(),
                self.retired_ids() == ret,
                self.primary() == old(self).primary(),
                old(self).wf() ==> self.wf(),
                paid(self.counts_seq(), ret, dv.skip(i as int)) == paid(s0, ret, dv),
            decreases n - i,
        {
            let ghost before = self.counts_seq();
            let e = &cost[i];
            if !self.is_retired(e.id.as_str()) {
                let cur = self.get(e.id.as_str());
                let newv = if cur >= e.amount {
                    cur - e.amount
                } else {
                    0
                };
                self.set_count(e.id.as_str(), newv);
            }
            proof {
                assert(dv[i as int] == (e.id@, e.amount));
                assert(self.counts_seq() == paid_one(before, ret, dv[i as int]));
                assert(dv.skip(i as int)[0] == dv[i as int]);
                assert(dv.skip(i as int).drop_first() =~= dv.skip(i as int + 1));
            }
            i += 1;
        }
        proof {
            assert(dv.skip(n as int) =~= Seq::<(Seq<char>, u32)>::empty());
        }
    }

    /// The stored entries, in insertion order, for display or saving.
    pub fn entries(&self) -> (r: Vec<(String, u32)>)
        ensures
            r.deep_view() == self.counts_seq(),
    {
        im_entries(&self.counts)
    }
}

/// Whether no resource is named twice in `cost`.
pub fn cost_ids_unique(cost: &Vec<CostEntry>) -> (r: bool)
    ensures
        r == unique_ids(cost.deep_view()),
{
    let ghost dv = cost.deep_view();
    let n = cost.len();
    let mut i: usize = 0;
    while i < n
        invariant
            i <= n,
            n == cost.len(),
            dv == cost.deep_view(),
            forall|a: int, b: int| 0 <= a < b < i ==> dv[a].0 != dv[b].0,
        decreases n - i,
    {
        let mut j: usize = 0;
        while j < i
            invariant
                j <= i < n,
                n == cost.len(),
                dv == cost.deep_view(),
                forall|a: int| 0 <= a < j ==> dv[a].0 != dv[i as int].0,
            decreases i - j,
        {
            if str_eq(cost[j].id.as_str(), cost[i].id.as_str()) {
                proof {
                    assert(dv[j as int].0 == dv[i as int].0);
                    assert(!unique_ids(dv));
                }
                return false;
            }
            proof {
                assert(dv[j as int] == (cost[j as int].id@, cost[j as int].amount));
                assert(dv[i as int] == (cost[i as int].id@, cost[i as int].amount));
            }
            j += 1;
        }
        i += 1;
    }
    proof {
        assert(unique_ids(dv));
    }
    true
}

/// Take `amount` from `value` only when it is covered; report whether it
/// was taken.
pub fn safe_subtract(value: &mut u32, amount: u32) -> (r: bool)
    ensures
        r == (*old(value) >= amount),
        r ==> *final(value) == *old(value) - amount,
        !r ==> *final(value) == *old(value),
{
    if *value >= amount {
        *value = *value - amount;
        true
    } else {
        false
    }
}

/// Storing a value keeps the stored keys unique: an existing key is
/// updated in place, a new one is appended exactly once.
pub proof fn lemma_upsert_unique(s: Seq<(Seq<char>, u32)>, id: Seq<char>, value: u32)
    requires
        unique_ids(s),
    ensures
        unique_ids(upsert(s, id, value)),
    decreases s.len(),
{
    let u = upsert(s, id, value);
    if s.len() == 0 {
        assert(u == seq![(id, value)]);
    } else if s[0].0 == id {
        assert(u == seq![(id, value)] + s.drop_first());
        assert forall|i: int, j: int| 0 <= i < j < u.len() implies u[i].0 != u[j].0 by {
            assert(u[i].0 == s[i].0);
            assert(u[j].0 == s[j].0);
        }
    } else {
        let sd = s.drop_first();
        assert(unique_ids(sd)) by {
            assert(forall|i: int, j: int|
                0 <= i < j < sd.len() ==> sd[i].0 == s[i + 1].0 && sd[j].0 == s[j + 1].0);
        }
        lemma_upsert_unique(sd, id, value);
        let u2 = upsert(sd, id, value);
        assert(lookup(sd, s[0].0) is None) by {
            assert(forall|i: int| 0 <= i < sd.len() ==> sd[i].0 == s[i + 1].0);
            lemma_lookup_absent(sd, s[0].0);
        }
        lemma_lookup_upsert(sd, id, value, s[0].0);
        assert(lookup(u2, s[0].0) is None);
        assert forall|k: int| 0 <= k < u2.len() implies u2[k].0 != s[0].0 by {
            if u2[k].0 == s[0].0 {
                lemma_lookup_present(u2, s[0].0, k);
            }
        }
        assert(u == seq![s[0]] + u2);
        assert forall|i: int, j: int| 0 <= i < j < u.len() implies u[i].0 != u[j].0 by {
            if i == 0 {
                assert(u[j] == u2[j - 1]);
            } else {
                assert(u[i] == u2[i - 1]);
                assert(u[j] == u2[j - 1]);
            }
        }
    }
}

/// Paying a cost with no repeated resource changes exactly the resources
/// the cost names: a named, unretired resource loses the line's amount
/// (stopping at zero), every other count is untouched.
pub proof fn lemma_paid_count(
    s: Seq<(Seq<char>, u32)>,
    retired: Seq<Seq<char>>,
    cost: Seq<(Seq<char>, u32)>,
    q: Seq<char>,
)
    requires
        unique_ids(cost),
    ensures
        count_in(paid(s, retired, cost), q) == match lookup(cost, q) {
            Some(a) => if retired.contains(q) {
                count_in(s, q)
            } else {
                sub_to_zero(count_in(s, q), a)
            },
            None => count_in(s, q),
        },
    decreases cost.len(),
{
    if cost.len() == 0 {
    } else {
        let e = cost[0];
        let s1 = paid_one(s, retired, e);
        let rest = cost.drop_first();
        assert(unique_ids(rest)) by {
            assert(forall|i: int, j: int|
                0 <= i < j < rest.len() ==> rest[i].0 == cost[i + 1].0 && rest[j].0 == cost[j
                    + 1].0);
        }
        lemma_paid_count(s1, retired, rest, q);
        if !retired.contains(e.0) {
            lemma_lookup_upsert(s, e.0, sub_to_zero(count_in(s, e.0), e.1), q);
        }
        if q == e.0 {
            assert(lookup(cost, q) == Some(e.1));
            assert(lookup(rest, q) is None) by {
                lemma_lookup_absent(rest, q);
            }
        } else {
            assert(lookup(cost, q) == lookup(rest, q));
        }
    }
}


/// One ledger operation, as issued by the engine: a spend is always the
/// checked form — it applies only when the cost is covered.
pub enum LedgerOp {
    Spend(Seq<(Seq<char>, u32)>),
    Add(Seq<char>, u32),
    AddClamped(u32, u32),
}

/// The counts after one checked operation.
pub open spec fn ledger_op_applied(
    s: Seq<(Seq<char>, u32)>,
    retired: Seq<Seq<char>>,
    primary: Seq<char>,
    op: LedgerOp,
) -> Seq<(Seq<char>, u32)> {
    match op {
        LedgerOp::Spend(cost) => if can_pay(s, retired, cost) {
            paid(s, retired, cost)
        } else {
            s
        },
        LedgerOp::Add(id, amount) => upsert(s, id, add_sat(count_in(s, id), amount)),
        LedgerOp::AddClamped(amount, cap) => upsert(
            s,
            primary,
            add_to_cap(count_in(s, primary), amount, cap),
        ),
    }
}

/// The counts after a sequence of checked operations, first to last.
pub open spec fn ledger_ops_applied(
    s: Seq<(Seq<char>, u32)>,
    retired: Seq<Seq<char>>,
    primary: Seq<char>,
    ops: Seq<LedgerOp>,
) -> Seq<(Seq<char>, u32)>
    decreases ops.len(),
{
    if ops.len() == 0 {
        s
    } else {
        ledger_ops_applied(
            ledger_op_applied(s, retired, primary, ops[0]),
            retired,
            primary,
            ops.drop_first(),
        )
    }
}

/// Law: no sequence of spend and add operations drives any count below
/// zero. Counts are unsigned, every addition clamps, and a spend either
/// has its whole cost covered or does not apply — and even then each
/// decrement stops at zero ([`lemma_paid_count`] gives the exact value).
pub proof fn lemma_counts_never_negative(
    s: Seq<(Seq<char>, u32)>,
    retired: Seq<Seq<char>>,
    primary: Seq<char>,
    ops: Seq<LedgerOp>,
    id: Seq<char>,
)
    ensures
        count_in(ledger_ops_applied(s, retired, primary, ops), id) >= 0,
{
}

} // verus!
