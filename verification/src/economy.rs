use vstd::prelude::*;
use crate::rng::random_index;
use crate::pack::{all_packs, is_pack_entry, pack_entry, PackDef, PACK_COUNT};
use crate::tech::{offered_for, tech_applicable, tech_catalogue, tech_price, TechDef, TechId, TechState};
use crate::unit::{all_kinds_spec, kind_at, kind_index_spec, kinds_contain, lemma_all_kinds, UnitKind, KIND_COUNT};

verus! {

/// Total price of a list of packs.
pub open spec fn total_cost(packs: Seq<PackDef>) -> int
    decreases packs.len(),
{
    if packs.len() == 0 {
        0
    } else {
        total_cost(packs.drop_last()) + packs.last().cost
    }
}

/// `p` is one of the shop's packs.
pub open spec fn in_shop(p: PackDef) -> bool {
    exists|j: int| 0 <= j < PACK_COUNT && is_pack_entry(p, j)
}

/// A shop pack that is not banned and costs at most `gold`.
pub open spec fn affordable(j: int, gold: int, banned: Seq<UnitKind>) -> bool {
    pack_entry(j).3 <= gold && !banned.contains(pack_entry(j).0)
}

/// `army` is a purchase from the shop within `gold`, avoiding `banned`,
/// after which no allowed pack is affordable any more.
pub open spec fn is_full_purchase(army: Seq<PackDef>, gold: int, banned: Seq<UnitKind>) -> bool {
    &&& total_cost(army) <= gold
    &&& forall|i: int| 0 <= i < army.len() ==> in_shop(#[trigger] army[i]) && !banned.contains(army[i].kind)
    &&& forall|j: int| 0 <= j < PACK_COUNT ==> !#[trigger] affordable(j, gold - total_cost(army), banned)
}

/// Catalogue indices, among the first `n`, of the packs that are not
/// banned and cost at most `gold`, in catalogue order.
pub open spec fn affordable_upto(gold: int, banned: Seq<UnitKind>, n: nat) -> Seq<int>
    decreases n,
{
    if n == 0 {
        Seq::empty()
    } else {
        let prev = affordable_upto(gold, banned, (n - 1) as nat);
        if affordable(n - 1, gold, banned) { prev.push(n - 1) } else { prev }
    }
}

/// Catalogue indices of the packs a random army can still draw from.
pub open spec fn affordable_indices(gold: int, banned: Seq<UnitKind>) -> Seq<int> {
    affordable_upto(gold, banned, PACK_COUNT as nat)
}

proof fn lemma_affordable_upto(gold: int, banned: Seq<UnitKind>, n: nat)
    requires
        n <= PACK_COUNT,
    ensures
        forall|i: int| 0 <= i < affordable_upto(gold, banned, n).len() ==> {
            &&& 0 <= #[trigger] affordable_upto(gold, banned, n)[i] < n
            &&& affordable(affordable_upto(gold, banned, n)[i], gold, banned)
        },
        affordable_upto(gold, banned, n).len() == 0 ==> forall|j: int| 0 <= j < n ==> !#[trigger] affordable(j, gold, banned),
    decreases n,
{
    if n > 0 {
        lemma_affordable_upto(gold, banned, (n - 1) as nat);
    }
}

/// The packs that can still be drawn: not banned and within `gold`, in
/// catalogue order.
fn affordable_packs(gold: u32, banned: &[UnitKind]) -> (r: Vec<PackDef>)
    ensures
        r@.len() == affordable_indices(gold as int, banned@).len(),
        forall|i: int| 0 <= i < r@.len() ==> is_pack_entry(#[trigger] r@[i], affordable_indices(gold as int, banned@)[i]),
{
    let packs = all_packs();
    let mut r: Vec<PackDef> = Vec::new();
    let mut j: usize = 0;
    while j < packs.len()
        invariant
            packs@.len() == PACK_COUNT,
            forall|m: int| 0 <= m < PACK_COUNT ==> is_pack_entry(#[trigger] packs@[m], m),
            j <= PACK_COUNT,
            r@.len() == affordable_upto(gold as int, banned@, j as nat).len(),
            forall|i: int| 0 <= i < r@.len() ==> is_pack_entry(#[trigger] r@[i], affordable_upto(gold as int, banned@, j as nat)[i]),
        decreases PACK_COUNT - j,
    {
        let p = packs[j];
        proof {
            assert(is_pack_entry(packs@[j as int], j as int));
        }
        if p.cost <= gold && !kinds_contain(banned, p.kind) {
            r.push(p);
        }
        j = j + 1;
    }
    r
}

/// How many packs a random army can draw from with `gold` left.
pub fn affordable_count(gold: u32, banned: &[UnitKind]) -> (n: usize)
    ensures
        n == affordable_indices(gold as int, banned@).len(),
{
    affordable_packs(gold, banned).len()
}

/// The pack that `draw` picks among those a random army can draw from:
/// the `draw`-th affordable, allowed pack in catalogue order.
pub fn pick_affordable(gold: u32, banned: &[UnitKind], draw: usize) -> (p: PackDef)
    requires
        draw < affordable_indices(gold as int, banned@).len(),
    ensures
        is_pack_entry(p, affordable_indices(gold as int, banned@)[draw as int]),
{
    let r = affordable_packs(gold, banned);
    r[draw]
}

/// A catalogue index whose pack's kind is one of `cat`.
pub open spec fn in_category(cat: Seq<UnitKind>) -> spec_fn(int) -> bool {
    |j: int| cat.contains(pack_entry(j).0)
}

/// Catalogue indices the smart AI draws from when it aims at the kinds
/// `cat`: the affordable, allowed packs of those kinds, or every
/// affordable, allowed pack when none of those kinds is affordable.
pub open spec fn category_pool(gold: int, banned: Seq<UnitKind>, cat: Seq<UnitKind>) -> Seq<int> {
    let all = affordable_indices(gold, banned);
    let inc = all.filter(in_category(cat));
    if inc.len() > 0 { inc } else { all }
}

fn category_packs(gold: u32, banned: &[UnitKind], cat: &[UnitKind]) -> (r: Vec<PackDef>)
    ensures
        r@.len() == category_pool(gold as int, banned@, cat@).len(),
        forall|i: int| 0 <= i < r@.len() ==> is_pack_entry(#[trigger] r@[i], category_pool(gold as int, banned@, cat@)[i]),
{
    let all = affordable_packs(gold, banned);
    let ghost idx = affordable_indices(gold as int, banned@);
    let ghost pred = in_category(cat@);
    let mut inc: Vec<PackDef> = Vec::new();
    let mut i: usize = 0;
    while i < all.len()
        invariant
            all@.len() == idx.len(),
            forall|m: int| 0 <= m < all@.len() ==> is_pack_entry(#[trigger] all@[m], idx[m]),
            pred == in_category(cat@),
            i <= all@.len(),
            inc@.len() == idx.take(i as int).filter(pred).len(),
            forall|m: int| 0 <= m < inc@.len() ==> is_pack_entry(#[trigger] inc@[m], idx.take(i as int).filter(pred)[m]),
        decreases all@.len() - i,
    {
        let p = all[i];
        proof {
            assert(is_pack_entry(all@[i as int], idx[i as int]));
            assert(idx.take(i as int + 1) =~= idx.take(i as int).push(idx[i as int]));
            idx.take(i as int).lemma_filter_push(idx[i as int], pred);
        }
        if kinds_contain(cat, p.kind) {
            inc.push(p);
        }
        i = i + 1;
    }
    proof {
        assert(idx.take(idx.len() as int) =~= idx);
    }
    if inc.len() > 0 {
        inc
    } else {
        all
    }
}

/// How many packs the smart AI draws from when it aims at the kinds `cat`.
pub fn category_pool_len(gold: u32, banned: &[UnitKind], cat: &[UnitKind]) -> (n: usize)
    ensures
        n == category_pool(gold as int, banned@, cat@).len(),
{
    category_packs(gold, banned, cat).len()
}

/// The pack that `draw` picks when the smart AI aims at the kinds `cat`.
pub fn pick_in_category(gold: u32, banned: &[UnitKind], cat: &[UnitKind], draw: usize) -> (p: PackDef)
    requires
        draw < category_pool(gold as int, banned@, cat@).len(),
    ensures
        is_pack_entry(p, category_pool(gold as int, banned@, cat@)[draw as int]),
{
    let r = category_packs(gold, banned, cat);
    r[draw]
}

/// Build a random army, excluding banned kinds. Returns chosen packs: packs
/// are drawn at random among the affordable, allowed ones (each draw an
/// index into them, as `pick_affordable` takes it) until none is left.
pub fn random_army_filtered(gold: u32, banned: &[UnitKind]) -> (chosen: Vec<PackDef>)
    ensures
        is_full_purchase(chosen@, gold as int, banned@),
{
    let mut remaining = gold;
    let mut chosen: Vec<PackDef> = Vec::new();

    loop
        invariant
            remaining == gold - total_cost(chosen@),
            total_cost(chosen@) <= gold,
            forall|i: int| 0 <= i < chosen@.len() ==> in_shop(#[trigger] chosen@[i]) && !banned@.contains(chosen@[i].kind),
        ensures
            is_full_purchase(chosen@, gold as int, banned@),
        decreases remaining,
    {
        let n = affordable_count(remaining, banned);
        proof {
            lemma_affordable_upto(remaining as int, banned@, PACK_COUNT as nat);
        }
        if n == 0 {
            break;
        }
        let draw = random_index(n);
        let pick = pick_affordable(remaining, banned, draw);
        proof {
            let j = affordable_indices(remaining as int, banned@)[draw as int];
            assert(is_pack_entry(pick, j));
            assert(in_shop(pick));
            assert(pick.cost >= 100);
        }
        let ghost before = chosen@;
        remaining = remaining - pick.cost;
        chosen.push(pick);
        proof {
            assert(chosen@.drop_last() =~= before);
        }
    }

    chosen
}

/// Sum of the prices of techs number `a` up to (not including) `b` of one kind.
pub open spec fn prices_between(a: nat, b: nat) -> int
    decreases b,
{
    if b <= a {
        0
    } else {
        prices_between(a, (b - 1) as nat) + tech_price((b - 1) as nat)
    }
}

/// Gold paid, over the first `n` kinds, to go from tech state `o` to `t`.
pub open spec fn spend_upto(o: TechState, t: TechState, n: nat) -> int
    decreases n,
{
    if n == 0 {
        0
    } else {
        let k = all_kinds_spec()[n - 1];
        spend_upto(o, t, (n - 1) as nat) + prices_between(o.techs(k).len(), t.techs(k).len())
    }
}

/// Gold paid to go from tech state `o` to `t`, each purchase at the price
/// it had when made.
pub open spec fn tech_spend(o: TechState, t: TechState) -> int {
    spend_upto(o, t, KIND_COUNT as nat)
}

/// Number of techs bought in going from `o` to `t`, over the first `n` kinds.
pub open spec fn bought_upto(o: TechState, t: TechState, n: nat) -> int
    decreases n,
{
    if n == 0 {
        0
    } else {
        let k = all_kinds_spec()[n - 1];
        bought_upto(o, t, (n - 1) as nat) + (t.techs(k).len() - o.techs(k).len())
    }
}

/// `t` is `o` with techs appended, each applicable to the kind it was bought for.
pub open spec fn extends_techs(o: TechState, t: TechState) -> bool {
    forall|k: UnitKind| {
        &&& o.techs(k).len() <= #[trigger] t.techs(k).len()
        &&& t.techs(k).take(o.techs(k).len() as int) == o.techs(k)
        &&& forall|i: int| o.techs(k).len() <= i < t.techs(k).len() ==> tech_applicable(t.techs(k)[i]).contains(k)
    }
}

proof fn lemma_spend_step(o: TechState, t1: TechState, t2: TechState, kind: UnitKind, n: nat)
    requires
        forall|k: UnitKind| k != kind ==> (#[trigger] t2.techs(k)) == t1.techs(k),
        t2.techs(kind).len() == t1.techs(kind).len() + 1,
        o.techs(kind).len() <= t1.techs(kind).len(),
        n <= KIND_COUNT,
    ensures
        spend_upto(o, t2, n) == spend_upto(o, t1, n) + (if kind_index_spec(kind) < n {
            tech_price(t1.techs(kind).len())
        } else {
            0
        }),
        bought_upto(o, t2, n) == bought_upto(o, t1, n) + (if kind_index_spec(kind) < n { 1int } else { 0 }),
    decreases n,
{
    lemma_all_kinds(kind);
    if n > 0 {
        lemma_spend_step(o, t1, t2, kind, (n - 1) as nat);
        let k = all_kinds_spec()[n - 1];
        assert(kind_index_spec(k) == n - 1);
        if k == kind {
            assert(prices_between(o.techs(k).len(), t2.techs(k).len()) == prices_between(o.techs(k).len(), t1.techs(k).len())
                + tech_price(t1.techs(k).len()));
        }
    }
}

proof fn lemma_extend_step(o: TechState, t1: TechState, t2: TechState, kind: UnitKind, tech_id: TechId)
    requires
        extends_techs(o, t1),
        t2.techs(kind) == t1.techs(kind).push(tech_id),
        forall|k: UnitKind| k != kind ==> (#[trigger] t2.techs(k)) == t1.techs(k),
        tech_applicable(tech_id).contains(kind),
    ensures
        extends_techs(o, t2),
{
    assert forall|k: UnitKind| {
        &&& o.techs(k).len() <= #[trigger] t2.techs(k).len()
        &&& t2.techs(k).take(o.techs(k).len() as int) == o.techs(k)
        &&& forall|i: int| o.techs(k).len() <= i < t2.techs(k).len() ==> tech_applicable(t2.techs(k)[i]).contains(k)
    } by {
        assert(o.techs(k).len() <= t1.techs(k).len());
        if k == kind {
            assert(t2.techs(k).take(o.techs(k).len() as int) =~= t1.techs(k).take(o.techs(k).len() as int));
            assert forall|i: int| o.techs(k).len() <= i < t2.techs(k).len() implies tech_applicable(t2.techs(k)[i]).contains(k) by {
                if i < t1.techs(k).len() {
                    assert(t2.techs(k)[i] == t1.techs(k)[i]);
                } else {
                    assert(t2.techs(k)[i] == tech_id);
                }
            }
        }
    }
}

proof fn lemma_spend_zero(o: TechState, n: nat)
    ensures
        spend_upto(o, o, n) == 0,
        bought_upto(o, o, n) == 0,
    decreases n,
{
    if n > 0 {
        lemma_spend_zero(o, (n - 1) as nat);
    }
}

/// The techs still on offer for `kind`, in catalogue order.
pub open spec fn tech_offer(t: TechState, kind: UnitKind) -> Seq<TechId> {
    tech_catalogue().filter(offered_for(t.techs(kind), kind))
}

/// An AI attempt on `kind` can buy: a tech is on offer and the kind's
/// current price fits both the gold and what is left of the tech budget.
pub open spec fn attempt_can_buy(gold: int, spent: int, budget: int, t: TechState, kind: UnitKind) -> bool {
    &&& tech_offer(t, kind).len() > 0
    &&& tech_price(t.techs(kind).len()) <= gold
    &&& spent + tech_price(t.techs(kind).len()) <= budget
}

/// How many techs an AI attempt on `kind` chooses among: those on offer
/// when the attempt can buy, else none.
pub fn ai_tech_choices(gold: u32, spent: u32, budget: u32, tech_state: &TechState, kind: UnitKind) -> (n: usize)
    ensures
        n == (if attempt_can_buy(gold as int, spent as int, budget as int, *tech_state, kind) {
            tech_offer(*tech_state, kind).len()
        } else {
            0
        }),
{
    let available = tech_state.available_techs(kind);
    proof {
        assert(available@.len() == available@.map_values(|d: &TechDef| d.id).len());
    }
    let cost = tech_state.effective_cost(kind);
    if available.len() == 0 || cost > gold || spent as u64 + cost as u64 > budget as u64 {
        0
    } else {
        available.len()
    }
}

/// One AI attempt on `kind`: when it can buy, the tech at `tech_draw` among
/// those on offer is bought at the kind's current price, which is taken
/// from the gold and added to what was spent; otherwise nothing changes.
pub fn ai_tech_attempt(
    gold: &mut u32,
    spent: &mut u32,
    budget: u32,
    tech_state: &mut TechState,
    kind: UnitKind,
    tech_draw: usize,
)
    requires
        attempt_can_buy(*old(gold) as int, *old(spent) as int, budget as int, *old(tech_state), kind)
            ==> tech_draw < tech_offer(*old(tech_state), kind).len(),
    ensures
        if attempt_can_buy(*old(gold) as int, *old(spent) as int, budget as int, *old(tech_state), kind) {
            let price = tech_price(old(tech_state).techs(kind).len());
            &&& final(tech_state).techs(kind) == old(tech_state).techs(kind).push(tech_offer(*old(tech_state), kind)[tech_draw as int])
            &&& forall|k: UnitKind| k != kind ==> (#[trigger] final(tech_state).techs(k)) == old(tech_state).techs(k)
            &&& *final(gold) == *old(gold) - price
            &&& *final(spent) == *old(spent) + price
        } else {
            &&& *final(tech_state) == *old(tech_state)
            &&& *final(gold) == *old(gold)
            &&& *final(spent) == *old(spent)
        },
{
    let available = tech_state.available_techs(kind);
    proof {
        assert(available@.len() == available@.map_values(|d: &TechDef| d.id).len());
    }
    let cost = tech_state.effective_cost(kind);
    if available.len() == 0 || cost > *gold || *spent as u64 + cost as u64 > budget as u64 {
        return;
    }
    let tech_id = available[tech_draw].id;
    let ghost t1 = *tech_state;
    let ghost pred = offered_for(t1.techs(kind), kind);
    proof {
        assert(available@.map_values(|d: &TechDef| d.id)[tech_draw as int] == tech_id);
        tech_catalogue().lemma_filter_pred(pred, tech_draw as int);
        assert(pred(tech_id));
    }
    let bought = tech_state.purchase(kind, tech_id);
    assert(bought);
    *gold = *gold - cost;
    *spent = *spent + cost;
}

/// AI buys random techs, spending up to a third of its gold: five random
/// attempts, each on a random kind and, when the attempt can buy, a random
/// one of the techs still offered for it. Whatever the draws, the techs
/// only grow, the gold spent is what they cost, at most a third of the gold
/// goes and at most five techs are bought; and when every kind has a tech
/// on offer at a price within a third of the gold, at least one is bought.
#[verifier::spinoff_prover]
pub fn ai_buy_techs(gold: &mut u32, tech_state: &mut TechState)
    ensures
        extends_techs(*old(tech_state), *final(tech_state)),
        *old(gold) - *final(gold) == tech_spend(*old(tech_state), *final(tech_state)),
        *old(gold) - *final(gold) <= *old(gold) / 3,
        bought_upto(*old(tech_state), *final(tech_state), KIND_COUNT as nat) <= 5,
        (forall|k: UnitKind| #[trigger] attempt_can_buy(*old(gold) as int, 0, (*old(gold) / 3) as int, *old(tech_state), k))
            ==> bought_upto(*old(tech_state), *final(tech_state), KIND_COUNT as nat) >= 1,
{
    let tech_budget = *gold / 3;
    let mut spent: u32 = 0;
    let ghost o = *tech_state;
    let ghost g0 = *gold;
    proof {
        lemma_spend_zero(o, KIND_COUNT as nat);
        assert forall|k: UnitKind| #[trigger] o.techs(k).take(o.techs(k).len() as int) == o.techs(k) by {
            assert(o.techs(k).take(o.techs(k).len() as int) =~= o.techs(k));
        }
    }
    let mut attempt: usize = 0;
    while attempt < 5
        invariant
            attempt <= 5,
            tech_budget == g0 / 3,
            g0 == *old(gold),
            o == *old(tech_state),
            spent <= tech_budget,
            *gold + spent == g0,
            extends_techs(o, *tech_state),
            spent == tech_spend(o, *tech_state),
            bought_upto(o, *tech_state, KIND_COUNT as nat) <= attempt,
            attempt == 0 ==> spent == 0 && *tech_state == o,
            attempt >= 1 && (forall|k: UnitKind| #[trigger] attempt_can_buy(g0 as int, 0, (g0 / 3) as int, o, k))
                ==> bought_upto(o, *tech_state, KIND_COUNT as nat) >= 1,
        decreases 5 - attempt,
    {
        let ghost first = attempt == 0;
        attempt = attempt + 1;
        if spent >= tech_budget {
            // the budget is used up: the remaining attempts do nothing
            proof {
                if first && (forall|k: UnitKind| #[trigger] attempt_can_buy(g0 as int, 0, (g0 / 3) as int, o, k)) {
                    assert(attempt_can_buy(g0 as int, 0, (g0 / 3) as int, o, UnitKind::Striker));
                }
            }
        } else {
            let kind = kind_at(random_index(KIND_COUNT));
            let n = ai_tech_choices(*gold, spent, tech_budget, tech_state, kind);
            let tech_draw = if n > 0 { random_index(n) } else { 0 };
            let ghost t1 = *tech_state;
            let ghost b1 = bought_upto(o, t1, KIND_COUNT as nat);
            ai_tech_attempt(gold, &mut spent, tech_budget, tech_state, kind, tech_draw);
            proof {
                lemma_spend_zero(o, KIND_COUNT as nat);
                if first && (forall|k: UnitKind| #[trigger] attempt_can_buy(g0 as int, 0, (g0 / 3) as int, o, k)) {
                    assert(attempt_can_buy(g0 as int, 0, (g0 / 3) as int, o, kind));
                    assert(n > 0);
                    assert(b1 == 0);
                }
                if n > 0 {
                    let tech_id = tech_offer(t1, kind)[tech_draw as int];
                    let t2 = *tech_state;
                    tech_catalogue().lemma_filter_pred(offered_for(t1.techs(kind), kind), tech_draw as int);
                    lemma_spend_step(o, t1, t2, kind, KIND_COUNT as nat);
                    assert(tech_applicable(tech_id).contains(kind));
                    lemma_extend_step(o, t1, t2, kind, tech_id);
                }
            }
        }
    }
}

} // verus!
