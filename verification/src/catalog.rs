//! The recipe catalog: static, externally loaded data naming categories of
//! craftable items and each item's resource cost.
//!
//! The catalog is built once through [`RecipeCatalog::add_category`] and
//! [`RecipeCatalog::add_item`], which refuse malformed declarations — a
//! repeated category name, a repeated item name, a cost that names the same
//! resource twice or the item itself — so malformed data is simply not
//! craftable. After loading the catalog is read-only; only
//! [`RecipeCatalog::craft`] touches a ledger, and it either pays an item's
//! whole cost and banks the item, or changes nothing.

use vstd::prelude::*;
use crate::imap::{lookup, lemma_lookup_absent, upsert};
use crate::ledger::{CostEntry, ResourceLedger, can_pay, paid, count_in, add_sat, unique_ids,
    cost_ids_unique};
use crate::names::Capabilities;
use crate::strutil::str_eq;

verus! {

/// A craftable item: its name and its resource cost.
pub struct RecipeItem {
    pub name: String,
    pub cost: Vec<CostEntry>,
}

impl View for RecipeItem {
    type V = (Seq<char>, Seq<(Seq<char>, u32)>);

    open spec fn view(&self) -> (Seq<char>, Seq<(Seq<char>, u32)>) {
        (self.name@, self.cost.deep_view())
    }
}

impl DeepView for RecipeItem {
    type V = (Seq<char>, Seq<(Seq<char>, u32)>);

    open spec fn deep_view(&self) -> (Seq<char>, Seq<(Seq<char>, u32)>) {
        self.view()
    }
}

/// A named category of items, optionally gated behind a capability flag.
pub struct RecipeCategory {
    pub name: String,
    pub gate_flag: Option<String>,
    pub items: Vec<RecipeItem>,
}

/// A declared item is well formed: no resource is required twice, and the
/// item does not require itself.
pub open spec fn item_ok(it: (Seq<char>, Seq<(Seq<char>, u32)>)) -> bool {
    unique_ids(it.1) && lookup(it.1, it.0) is None
}

/// The first category of that name, if any.
pub open spec fn find_category(cats: Seq<RecipeCategory>, name: Seq<char>) -> Option<
    RecipeCategory,
>
    decreases cats.len(),
{
    if cats.len() == 0 {
        None
    } else if cats[0].name@ == name {
        Some(cats[0])
    } else {
        find_category(cats.drop_first(), name)
    }
}

/// The first item of that name, if any.
pub open spec fn find_item(items: Seq<RecipeItem>, name: Seq<char>) -> Option<RecipeItem>
    decreases items.len(),
{
    if items.len() == 0 {
        None
    } else if items[0].name@ == name {
        Some(items[0])
    } else {
        find_item(items.drop_first(), name)
    }
}

/// The cost of `item` in `category`, if both are declared.
pub open spec fn craft_cost(
    cats: Seq<RecipeCategory>,
    category: Seq<char>,
    item: Seq<char>,
) -> Option<Seq<(Seq<char>, u32)>> {
    match find_category(cats, category) {
        Some(c) => match find_item(c.items@, item) {
            Some(it) => Some(it.cost.deep_view()),
            None => None,
        },
        None => None,
    }
}

/// The counts after paying `cost` and banking one crafted `item`.
pub open spec fn crafted_counts(
    s: Seq<(Seq<char>, u32)>,
    retired: Seq<Seq<char>>,
    cost: Seq<(Seq<char>, u32)>,
    item: Seq<char>,
) -> Seq<(Seq<char>, u32)> {
    let p = paid(s, retired, cost);
    upsert(p, item, add_sat(count_in(p, item), 1))
}

/// What crafting does to the counts: nothing unless the item is declared
/// and its whole cost is covered; otherwise pay the cost and bank the item.
pub open spec fn craft_step_counts(
    cats: Seq<RecipeCategory>,
    s: Seq<(Seq<char>, u32)>,
    retired: Seq<Seq<char>>,
    category: Seq<char>,
    item: Seq<char>,
) -> Seq<(Seq<char>, u32)> {
    match craft_cost(cats, category, item) {
        Some(cost) => if can_pay(s, retired, cost) {
            crafted_counts(s, retired, cost, item)
        } else {
            s
        },
        None => s,
    }
}

/// Law: crafting is all-or-nothing. When the item is unknown, or its cost
/// is not fully covered, crafting leaves every resource count exactly as it
/// was — there is no partial spend.
pub proof fn lemma_craft_all_or_nothing(
    cats: Seq<RecipeCategory>,
    s: Seq<(Seq<char>, u32)>,
    retired: Seq<Seq<char>>,
    category: Seq<char>,
    item: Seq<char>,
)
    requires
        match craft_cost(cats, category, item) {
            Some(cost) => !can_pay(s, retired, cost),
            None => true,
        },
    ensures
        craft_step_counts(cats, s, retired, category, item) == s,
{
}

/// Why a craft request was refused.
#[derive(Debug, Clone, PartialEq, Eq)]
pub enum CraftError {
    /// The category or the item is not declared in the catalog.
    ItemNotFound,
    /// The item's cost is not fully covered by the ledger.
    InsufficientResources,
}

/// The static catalog of craftable items.
pub struct RecipeCatalog {
    categories: Vec<RecipeCategory>,
}

/// Every item of the category is well formed.
pub open spec fn cat_items_ok(c: RecipeCategory) -> bool {
    forall|j: int| 0 <= j < c.items.deep_view().len() ==> item_ok(#[trigger] c.items.deep_view()[j])
}

impl RecipeCatalog {
    /// The declared categories, in declaration order.
    pub closed spec fn cats(self) -> Seq<RecipeCategory> {
        self.categories@
    }

    /// Category names are unique and every declared item is well formed.
    pub open spec fn wf(self) -> bool {
        &&& forall|i: int, j: int|
            0 <= i < j < self.cats().len() ==> self.cats()[i].name@ != self.cats()[j].name@
        &&& forall|i: int| 0 <= i < self.cats().len() ==> cat_items_ok(#[trigger] self.cats()[i])
    }

    /// An empty catalog: nothing is craftable.
    pub fn new() -> (c: RecipeCatalog)
        ensures
            c.cats() == Seq::<RecipeCategory>::empty(),
            c.wf(),
    {
        RecipeCatalog { categories: Vec::new() }
    }

    /// The position of the first category of that name, if any.
    fn find_category_idx(&self, category: &str) -> (r: Option<usize>)
        ensures
            match r {
                Some(i) => i < self.cats().len() && self.cats()[i as int].name@ == category@
                    && find_category(self.cats(), category@) == Some(self.cats()[i as int])
                    && forall|j: int| 0 <= j < i ==> self.cats()[j].name@ != category@,
                None => find_category(self.cats(), category@) is None && forall|j: int|
                    0 <= j < self.cats().len() ==> self.cats()[j].name@ != category@,
            },
    {
        let ghost cs = self.cats();
        proof {
            assert(cs.skip(0) =~= cs);
        }
        let n = self.categories.len();
        let mut i: usize = 0;
        while i < n
            invariant
                i <= n,
                n == self.categories.len(),
                cs == self.cats(),
                find_category(cs, category@) == find_category(cs.skip(i as int), category@),
                forall|j: int| 0 <= j < i ==> cs[j].name@ != category@,
            decreases n - i,
        {
            let hit = str_eq(self.categories[i].name.as_str(), category);
            proof {
                assert(cs.skip(i as int)[0] == cs[i as int]);
                assert(cs.skip(i as int).drop_first() =~= cs.skip(i as int + 1));
            }
            if hit {
                return Some(i);
            }
            i += 1;
        }
        proof {
            assert(cs.skip(n as int) =~= Seq::<RecipeCategory>::empty());
        }
        None
    }

    /// Declare a category; a repeated name is refused.
    pub fn add_category(&mut self, name: String, gate_flag: Option<String>) -> (r: bool)
        ensures
            r == (find_category(old(self).cats(), name@) is None),
            !r ==> final(self).cats() == old(self).cats(),
            r ==> final(self).cats().len() == old(self).cats().len() + 1,
            r ==> final(self).cats().take(old(self).cats().len() as int) == old(self).cats(),
            r ==> final(self).cats().last().name == name && final(self).cats().last().gate_flag
                == gate_flag && final(self).cats().last().items@.len() == 0,
            old(self).wf() ==> final(self).wf(),
    {
        match self.find_category_idx(name.as_str()) {
            Some(_) => false,
            None => {
                let ghost before = self.cats();
                self.categories.push(
                    RecipeCategory { name, gate_flag, items: Vec::new() },
                );
                proof {
                    assert(self.cats().take(before.len() as int) =~= before);
                    assert(self.cats().last() == self.cats()[before.len() as int]);
                    if old(self).wf() {
                        assert forall|i: int, j: int|
                            0 <= i < j < self.cats().len() implies self.cats()[i].name@
                            != self.cats()[j].name@ by {
                            if j < before.len() {
                            } else {
                                assert(self.cats()[i] == before[i]);
                            }
                        }
                        assert forall|i: int|
                            0 <= i < self.cats().len() implies cat_items_ok(
                            #[trigger] self.cats()[i],
                        ) by {
                            if i < before.len() {
                                assert(self.cats()[i] == before[i]);
                            } else {
                                assert(self.cats()[i].items.deep_view().len() == 0);
                            }
                        }
                    }
                }
                true
            },
        }
    }

    /// Declare an item in an existing category; refused when the category
    /// is unknown, the item name is already taken there, a resource is
    /// required twice, or the item requires itself.
    pub fn add_item(&mut self, category: &str, name: String, cost: Vec<CostEntry>) -> (r: bool)
        ensures
            r == ({
                let it = (name@, cost.deep_view());
                match find_category(old(self).cats(), category@) {
                    Some(c) => item_ok(it) && find_item(c.items@, name@) is None,
                    None => false,
                }
            }),
            !r ==> final(self).cats() == old(self).cats(),
            r ==> craft_cost(final(self).cats(), category@, name@) == Some(cost.deep_view()),
            r ==> final(self).cats().len() == old(self).cats().len() && exists|i: int|
                {
                    &&& 0 <= i < old(self).cats().len()
                    &&& #[trigger] old(self).cats()[i].name@ == category@
                    &&& final(self).cats()[i].name == old(self).cats()[i].name
                    &&& final(self).cats()[i].gate_flag == old(self).cats()[i].gate_flag
                    &&& final(self).cats()[i].items.deep_view() == old(
                        self,
                    ).cats()[i].items.deep_view().push((name@, cost.deep_view()))
                    &&& forall|k: int|
                        0 <= k < old(self).cats().len() && k != i ==> final(self).cats()[k] == old(
                            self,
                        ).cats()[k]
                },
            old(self).wf() ==> final(self).wf(),
    {
        let ci = match self.find_category_idx(category) {
            Some(i) => i,
            None => {
                return false;
            },
        };
        if !cost_ok(name.as_str(), &cost) {
            return false;
        }
        match find_item_idx(&self.categories[ci].items, name.as_str()) {
            Some(_) => false,
            None => {
                let ghost before = self.cats();
                let ghost it = (name@, cost.deep_view());
                let item = RecipeItem { name, cost };
                proof {
                    assert(item@ == it);
                }
                let ghost olditems = self.categories[ci as int].items.deep_view();
                self.categories[ci].items.push(item);
                proof {
                    let cs = self.cats();
                    assert(cs[ci as int].items.deep_view() =~= olditems.push(it));
                    assert forall|k: int|
                        0 <= k < before.len() && k != ci implies cs[k] == before[k] by {}
                    // The changed category is still the first match by name.
                    lemma_find_category_at(cs, category@, ci as int);
                    // The new item is the first of its name in the category.
                    let items2 = cs[ci as int].items@;
                    assert forall|j: int|
                        0 <= j < items2.len() - 1 implies items2[j].name@ != name@ by {
                        assert(items2[j]@ == olditems[j]);
                        lemma_find_item_none_names(before[ci as int].items@, name@);
                    }
                    assert(items2.last().name@ == name@);
                    lemma_find_item_at(items2, name@, items2.len() - 1);
                    assert(items2.last().cost.deep_view() == it.1);
                    if old(self).wf() {
                        assert forall|i: int|
                            0 <= i < cs.len() implies cat_items_ok(#[trigger] cs[i]) by {
                            assert(cat_items_ok(before[i]));
                            if i == ci {
                                assert(cs[i].items.deep_view() == olditems.push(it));
                                assert forall|j: int|
                                    0 <= j < cs[i].items.deep_view().len() implies item_ok(
                                    #[trigger] cs[i].items.deep_view()[j],
                                ) by {
                                    if j < olditems.len() {
                                        assert(cs[i].items.deep_view()[j] == olditems[j]);
                                    } else {
                                        assert(cs[i].items.deep_view()[j] == it);
                                    }
                                }
                            }
                        }
                    }
                }
                true
            },
        }
    }

    /// The items declared in `category`, in declaration order; empty when
    /// the category is unknown.
    pub fn items_in(&self, category: &str) -> (r: Vec<RecipeItem>)
        ensures
            match find_category(self.cats(), category@) {
                Some(c) => r.deep_view() == c.items.deep_view(),
                None => r.deep_view() == Seq::<(Seq<char>, Seq<(Seq<char>, u32)>)>::empty(),
            },
    {
        match self.find_category_idx(category) {
            Some(ci) => clone_items(&self.categories[ci].items),
            None => {
                let r: Vec<RecipeItem> = Vec::new();
                proof {
                    assert(r.deep_view() =~= Seq::<(Seq<char>, Seq<(Seq<char>, u32)>)>::empty());
                }
                r
            },
        }
    }

    /// The declared category names, in declaration order.
    pub fn category_names(&self) -> (r: Vec<String>)
        ensures
            r.deep_view().len() == self.cats().len(),
            forall|i: int| 0 <= i < r.deep_view().len() ==> r.deep_view()[i] == self.cats()[i].name@,
    {
        let n = self.categories.len();
        let mut r: Vec<String> = Vec::new();
        let mut i: usize = 0;
        while i < n
            invariant
                i <= n,
                n == self.categories.len(),
                r.deep_view().len() == i,
                forall|j: int| 0 <= j < i ==> r.deep_view()[j] == self.cats()[j].name@,
            decreases n - i,
        {
            let ghost before = r.deep_view();
            let x = self.categories[i].name.clone();
            proof {
                assert(x.deep_view() == self.cats()[i as int].name@);
            }
            r.push(x);
            proof {
                assert(r.deep_view() =~= before.push(self.cats()[i as int].name@));
            }
            i += 1;
        }
        r
    }

    /// Whether `category` is declared and its gate flag, if it has one, is
    /// set. Gating is the caller's rule: `craft` itself does not test it.
    pub fn category_unlocked(&self, caps: &Capabilities, category: &str) -> (r: bool)
        ensures
            r == match find_category(self.cats(), category@) {
                Some(c) => match c.gate_flag {
                    Some(f) => caps.flags.has(f@),
                    None => true,
                },
                None => false,
            },
    {
        match self.find_category_idx(category) {
            Some(ci) => match &self.categories[ci].gate_flag {
                Some(f) => caps.flags.contains(f.as_str()),
                None => true,
            },
            None => false,
        }
    }

    /// Craft `item` from `category`: check the item exists, check the whole
    /// cost is covered, then pay it and bank one crafted item — or change
    /// nothing and say why.
    pub fn craft(&self, ledger: &mut ResourceLedger, category: &str, item: &str) -> (r: Result<
        (),
        CraftError,
    >)
        ensures
            final(ledger).counts_seq() == craft_step_counts(
                self.cats(),
                old(ledger).counts_seq(),
                old(ledger).retired_ids(),
                category@,
                item@,
            ),
            final(ledger).retired_ids() == old(ledger).retired_ids(),
            final(ledger).primary() == old(ledger).primary(),
            old(ledger).wf() ==> final(ledger).wf(),
            match (r, craft_cost(self.cats(), category@, item@)) {
                (Ok(_), Some(cost)) => can_pay(
                    old(ledger).counts_seq(),
                    old(ledger).retired_ids(),
                    cost,
                ),
                (Err(CraftError::ItemNotFound), None) => true,
                (Err(CraftError::InsufficientResources), Some(cost)) => !can_pay(
                    old(ledger).counts_seq(),
                    old(ledger).retired_ids(),
                    cost,
                ),
                _ => false,
            },
    {
        let ci = match self.find_category_idx(category) {
            Some(i) => i,
            None => {
                return Err(CraftError::ItemNotFound);
            },
        };
        let ii = match find_item_idx(&self.categories[ci].items, item) {
            Some(i) => i,
            None => {
                return Err(CraftError::ItemNotFound);
            },
        };
        let cost = &self.categories[ci].items[ii].cost;
        proof {
            assert(craft_cost(self.cats(), category@, item@) == Some(cost.deep_view()));
        }
        if !ledger.can_afford(cost) {
            return Err(CraftError::InsufficientResources);
        }
        ledger.spend(cost);
        ledger.increment_or_insert(item, 1);
        Ok(())
    }
}

/// The position of the first item of that name, if any.
fn find_item_idx(items: &Vec<RecipeItem>, name: &str) -> (r: Option<usize>)
    ensures
        match r {
            Some(i) => i < items@.len() && items@[i as int].name@ == name@ && find_item(
                items@,
                name@,
            ) == Some(items@[i as int]) && forall|j: int|
                0 <= j < i ==> items@[j].name@ != name@,
            None => find_item(items@, name@) is None && forall|j: int|
                0 <= j < items@.len() ==> items@[j].name@ != name@,
        },
{
    let ghost s = items@;
    proof {
        assert(s.skip(0) =~= s);
    }
    let n = items.len();
    let mut i: usize = 0;
    while i < n
        invariant
            i <= n,
            n == items@.len(),
            s == items@,
            find_item(s, name@) == find_item(s.skip(i as int), name@),
            forall|j: int| 0 <= j < i ==> s[j].name@ != name@,
        decreases n - i,
    {
        let hit = str_eq(items[i].name.as_str(), name);
        proof {
            assert(s.skip(i as int)[0] == s[i as int]);
            assert(s.skip(i as int).drop_first() =~= s.skip(i as int + 1));
        }
        if hit {
            return Some(i);
        }
        i += 1;
    }
    proof {
        assert(s.skip(n as int) =~= Seq::<RecipeItem>::empty());
    }
    None
}

/// Whether a declared cost is well formed for an item of this name.
fn cost_ok(name: &str, cost: &Vec<CostEntry>) -> (r: bool)
    ensures
        r == item_ok((name@, cost.deep_view())),
{
    let ghost dv = cost.deep_view();
    let n = cost.len();
    let mut i: usize = 0;
    while i < n
        invariant
            i <= n,
            n == cost.len(),
            dv == cost.deep_view(),
            forall|j: int| 0 <= j < i ==> dv[j].0 != name@,
        decreases n - i,
    {
        if str_eq(cost[i].id.as_str(), name) {
            proof {
                assert(dv[i as int].0 == name@);
                crate::imap::lemma_lookup_present(dv, name@, i as int);
            }
            return false;
        }
        proof {
            assert(dv[i as int] == (cost[i as int].id@, cost[i as int].amount));
        }
        i += 1;
    }
    proof {
        lemma_lookup_absent(dv, name@);
    }
    cost_ids_unique(cost)
}

/// A copy of a cost list with the same entries.
pub fn clone_cost(cost: &Vec<CostEntry>) -> (r: Vec<CostEntry>)
    ensures
        r.deep_view() == cost.deep_view(),
{
    let n = cost.len();
    let mut r: Vec<CostEntry> = Vec::new();
    let mut i: usize = 0;
    while i < n
        invariant
            i <= n,
            n == cost.len(),
            r.deep_view() == cost.deep_view().take(i as int),
        decreases n - i,
    {
        let ghost before = r.deep_view();
        let e = CostEntry { id: cost[i].id.clone(), amount: cost[i].amount };
        proof {
            assert(e.deep_view() == cost.deep_view()[i as int]);
        }
        r.push(e);
        proof {
            assert(r.deep_view() =~= before.push(cost.deep_view()[i as int]));
            assert(r.deep_view() =~= cost.deep_view().take(i + 1));
        }
        i += 1;
    }
    proof {
        assert(cost.deep_view().take(n as int) =~= cost.deep_view());
    }
    r
}

/// A copy of an item list with the same names and costs.
fn clone_items(items: &Vec<RecipeItem>) -> (r: Vec<RecipeItem>)
    ensures
        r.deep_view() == items.deep_view(),
{
    let n = items.len();
    let mut r: Vec<RecipeItem> = Vec::new();
    let mut i: usize = 0;
    while i < n
        invariant
            i <= n,
            n == items.len(),
            r.deep_view() == items.deep_view().take(i as int),
        decreases n - i,
    {
        let ghost before = r.deep_view();
        let it = RecipeItem { name: items[i].name.clone(), cost: clone_cost(&items[i].cost) };
        proof {
            assert(it.deep_view() == items.deep_view()[i as int]);
        }
        r.push(it);
        proof {
            assert(r.deep_view() =~= before.push(items.deep_view()[i as int]));
            assert(r.deep_view() =~= items.deep_view().take(i + 1));
        }
        i += 1;
    }
    proof {
        assert(items.deep_view().take(n as int) =~= items.deep_view());
    }
    r
}

/// A first match by name stands where nothing earlier matches.
proof fn lemma_find_category_at(cats: Seq<RecipeCategory>, q: Seq<char>, i: int)
    requires
        0 <= i < cats.len(),
        cats[i].name@ == q,
        forall|j: int| 0 <= j < i ==> cats[j].name@ != q,
    ensures
        find_category(cats, q) == Some(cats[i]),
    decreases i,
{
    if i > 0 {
        lemma_find_category_at(cats.drop_first(), q, i - 1);
        assert(cats.drop_first()[i - 1] == cats[i]);
    }
}

/// A first match by name stands where nothing earlier matches.
proof fn lemma_find_item_at(items: Seq<RecipeItem>, q: Seq<char>, i: int)
    requires
        0 <= i < items.len(),
        items[i].name@ == q,
        forall|j: int| 0 <= j < i ==> items[j].name@ != q,
    ensures
        find_item(items, q) == Some(items[i]),
    decreases i,
{
    if i > 0 {
        lemma_find_item_at(items.drop_first(), q, i - 1);
        assert(items.drop_first()[i - 1] == items[i]);
    }
}

/// Where no item is found, no name matches.
proof fn lemma_find_item_none_names(items: Seq<RecipeItem>, q: Seq<char>)
    requires
        find_item(items, q) is None,
    ensures
        forall|j: int| 0 <= j < items.len() ==> items[j].name@ != q,
    decreases items.len(),
{
    if items.len() > 0 {
        lemma_find_item_none_names(items.drop_first(), q);
        assert forall|j: int| 0 <= j < items.len() implies items[j].name@ != q by {
            if j > 0 {
                assert(items.drop_first()[j - 1] == items[j]);
            }
        }
    }
}

} // verus!
