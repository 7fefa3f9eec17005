use vstd::prelude::*;
use crate::unit::{kinds_contain, UnitKind, KIND_COUNT};

verus! {

/// A purchasable pack: a rows x cols formation of one unit kind.
#[derive(Clone, Copy, Debug)]
pub struct PackDef {
    pub kind: UnitKind,
    pub rows: u8,
    pub cols: u8,
    pub cost: u32,
    pub name: &'static str,
}

impl PackDef {
    /// Number of units in the pack.
    pub fn count(&self) -> (n: u8)
        requires
            self.rows * self.cols <= u8::MAX,
        ensures
            n == self.rows * self.cols,
    {
        self.rows * self.cols
    }

    /// Get effective (rows, cols) accounting for rotation.
    pub fn effective_dims(&self, rotated: bool) -> (dims: (u8, u8))
        ensures
            dims == (if rotated { (self.cols, self.rows) } else { (self.rows, self.cols) }),
    {
        if rotated {
            (self.cols, self.rows)
        } else {
            (self.rows, self.cols)
        }
    }
}

/// Number of packs in the shop.
pub const PACK_COUNT: usize = 13;

/// Shop entry `i`: (kind, rows, cols, cost).
pub open spec fn pack_entry(i: int) -> (UnitKind, u8, u8, u32) {
    if i == 0 {
        (UnitKind::Chaff, 3, 6, 100)
    } else if i == 1 {
        (UnitKind::Skirmisher, 2, 6, 100)
    } else if i == 2 {
        (UnitKind::Scout, 2, 3, 100)
    } else if i == 3 {
        (UnitKind::Striker, 1, 3, 200)
    } else if i == 4 {
        (UnitKind::Bruiser, 1, 2, 200)
    } else if i == 5 {
        (UnitKind::Sentinel, 1, 2, 200)
    } else if i == 6 {
        (UnitKind::Ranger, 1, 3, 200)
    } else if i == 7 {
        (UnitKind::Dragoon, 1, 5, 200)
    } else if i == 8 {
        (UnitKind::Berserker, 1, 3, 200)
    } else if i == 9 {
        (UnitKind::Interceptor, 1, 3, 200)
    } else if i == 10 {
        (UnitKind::Artillery, 1, 2, 300)
    } else if i == 11 {
        (UnitKind::Sniper, 1, 1, 300)
    } else {
        (UnitKind::Shield, 1, 2, 300)
    }
}

/// Number of units in shop entry `i`.
pub open spec fn pack_size(i: int) -> nat {
    (pack_entry(i).1 * pack_entry(i).2) as nat
}

/// Display name of shop entry `i`.
pub open spec fn pack_name(i: int) -> Seq<char> {
    if i == 0 {
        "Chaff"@
    } else if i == 1 {
        "Skirmishers"@
    } else if i == 2 {
        "Scouts"@
    } else if i == 3 {
        "Strikers"@
    } else if i == 4 {
        "Bruisers"@
    } else if i == 5 {
        "Sentinels"@
    } else if i == 6 {
        "Rangers"@
    } else if i == 7 {
        "Dragoons"@
    } else if i == 8 {
        "Berserkers"@
    } else if i == 9 {
        "Interceptors"@
    } else if i == 10 {
        "Artillery"@
    } else if i == 11 {
        "Sniper"@
    } else {
        "Shields"@
    }
}

/// `p` is shop entry `i`.
pub open spec fn is_pack_entry(p: PackDef, i: int) -> bool {
    &&& (p.kind, p.rows, p.cols, p.cost) == pack_entry(i)
    &&& p.name@ == pack_name(i)
}

/// The shop's packs, cheapest tier first.
pub fn all_packs() -> (packs: &'static [PackDef])
    ensures
        packs@.len() == PACK_COUNT,
        forall|i: int| 0 <= i < PACK_COUNT ==> is_pack_entry(#[trigger] packs@[i], i),
{
    let packs: &'static [PackDef] = &[
        // T1 - 100 gold
        PackDef {
            kind: UnitKind::Chaff,
            rows: 3,
            cols: 6,
            cost: 100,
            name: "Chaff",
        },
        PackDef {
            kind: UnitKind::Skirmisher,
            rows: 2,
            cols: 6,
            cost: 100,
            name: "Skirmishers",
        },
        PackDef {
            kind: UnitKind::Scout,
            rows: 2,
            cols: 3,
            cost: 100,
            name: "Scouts",
        },
        // T2 - 200 gold
        PackDef {
            kind: UnitKind::Striker,
            rows: 1,
            cols: 3,
            cost: 200,
            name: "Strikers",
        },
        PackDef {
            kind: UnitKind::Bruiser,
            rows: 1,
            cols: 2,
            cost: 200,
            name: "Bruisers",
        },
        PackDef {
            kind: UnitKind::Sentinel,
            rows: 1,
            cols: 2,
            cost: 200,
            name: "Sentinels",
        },
        PackDef {
            kind: UnitKind::Ranger,
            rows: 1,
            cols: 3,
            cost: 200,
            name: "Rangers",
        },
        PackDef {
            kind: UnitKind::Dragoon,
            rows: 1,
            cols: 5,
            cost: 200,
            name: "Dragoons",
        },
        PackDef {
            kind: UnitKind::Berserker,
            rows: 1,
            cols: 3,
            cost: 200,
            name: "Berserkers",
        },
        PackDef {
            kind: UnitKind::Interceptor,
            rows: 1,
            cols: 3,
            cost: 200,
            name: "Interceptors",
        },
        // T3 - 300 gold
        PackDef {
            kind: UnitKind::Artillery,
            rows: 1,
            cols: 2,
            cost: 300,
            name: "Artillery",
        },
        PackDef {
            kind: UnitKind::Sniper,
            rows: 1,
            cols: 1,
            cost: 300,
            name: "Sniper",
        },
        PackDef {
            kind: UnitKind::Shield,
            rows: 1,
            cols: 2,
            cost: 300,
            name: "Shields",
        },
    ];
    assert(forall|i: int| 0 <= i < PACK_COUNT ==> is_pack_entry(#[trigger] packs@[i], i));
    packs
}

/// Each unit kind is sold in exactly one pack; `pack_index_of(kind)` is its entry.
pub open spec fn pack_index_of(kind: UnitKind) -> int {
    match kind {
        UnitKind::Chaff => 0,
        UnitKind::Skirmisher => 1,
        UnitKind::Scout => 2,
        UnitKind::Striker => 3,
        UnitKind::Bruiser => 4,
        UnitKind::Sentinel => 5,
        UnitKind::Ranger => 6,
        UnitKind::Dragoon => 7,
        UnitKind::Berserker => 8,
        UnitKind::Interceptor => 9,
        UnitKind::Artillery => 10,
        UnitKind::Sniper => 11,
        UnitKind::Shield => 12,
    }
}

/// Shop catalogue facts: each kind's pack is the only one of that kind,
/// and every pack holds between 1 and 18 units.
pub proof fn lemma_pack_catalogue(kind: UnitKind)
    ensures
        0 <= pack_index_of(kind) < PACK_COUNT,
        pack_entry(pack_index_of(kind)).0 == kind,
        forall|i: int| 0 <= i < PACK_COUNT && pack_entry(i).0 == kind ==> i == pack_index_of(kind),
        forall|i: int| 0 <= i < PACK_COUNT ==> 1 <= #[trigger] pack_entry(i).1 * pack_entry(i).2 <= 18,
        forall|i: int| 0 <= i < PACK_COUNT ==> 100 <= #[trigger] pack_entry(i).3 <= 300,
{
}

/// Gold value of one surviving unit of `kind`: its pack's cost split evenly
/// over the pack's units (rounded down).
pub open spec fn unit_value(kind: UnitKind) -> int {
    let e = pack_entry(pack_index_of(kind));
    (e.3 as int) / ((e.1 * e.2) as int)
}

/// Unit values lie between 0 and 300 gold.
pub proof fn lemma_unit_value_bounds(kind: UnitKind)
    ensures
        0 <= unit_value(kind) <= 300,
{
    match kind {
        UnitKind::Striker => {},
        UnitKind::Sentinel => {},
        UnitKind::Ranger => {},
        UnitKind::Scout => {},
        UnitKind::Bruiser => {},
        UnitKind::Artillery => {},
        UnitKind::Chaff => {},
        UnitKind::Sniper => {},
        UnitKind::Skirmisher => {},
        UnitKind::Dragoon => {},
        UnitKind::Berserker => {},
        UnitKind::Shield => {},
        UnitKind::Interceptor => {},
    }
}

/// Hands out `count` consecutive unit ids starting at `*next_id`, and
/// advances `*next_id` past them.
pub fn assign_unit_ids(count: usize, next_id: &mut u64) -> (ids: Vec<u64>)
    requires
        *old(next_id) + count <= u64::MAX,
    ensures
        ids@.len() == count,
        forall|i: int| 0 <= i < count ==> #[trigger] ids@[i] == *old(next_id) + i,
        *final(next_id) == *old(next_id) + count,
{
    let mut ids: Vec<u64> = Vec::new();
    let mut i: usize = 0;
    while i < count
        invariant
            i <= count,
            *next_id == *old(next_id) + i,
            *old(next_id) + count <= u64::MAX,
            ids@.len() == i,
            forall|j: int| 0 <= j < i ==> #[trigger] ids@[j] == *old(next_id) + j,
        decreases count - i,
    {
        ids.push(*next_id);
        *next_id = *next_id + 1;
        i = i + 1;
    }
    ids
}


/// The shop's first `n` entries as offered: the entries whose kind is not
/// banned, in catalogue order, each with whether it can be bought: `gold`
/// covers its price and a build is left this round.
pub open spec fn shop_upto(gold: u32, banned: Seq<UnitKind>, builds_remaining: u32, n: nat) -> Seq<(usize, bool)>
    decreases n,
{
    if n == 0 {
        Seq::empty()
    } else {
        let prev = shop_upto(gold, banned, builds_remaining, (n - 1) as nat);
        let e = pack_entry(n - 1);
        if banned.contains(e.0) {
            prev
        } else {
            prev.push(((n - 1) as usize, gold >= e.3 && builds_remaining > 0))
        }
    }
}

/// What the shop shows: every pack whose kind is not banned, in catalogue
/// order, with whether it can be bought: the gold covers its price and
/// `builds_remaining` is not zero (once the round's builds are used up,
/// nothing can be bought).
pub fn shop_offer(gold: u32, banned: &[UnitKind], builds_remaining: u32) -> (r: Vec<(usize, bool)>)
    ensures
        r@ == shop_upto(gold, banned@, builds_remaining, PACK_COUNT as nat),
{
    let packs = all_packs();
    let mut r: Vec<(usize, bool)> = Vec::new();
    let mut i: usize = 0;
    while i < packs.len()
        invariant
            i <= packs@.len(),
            packs@.len() == PACK_COUNT,
            forall|j: int| 0 <= j < PACK_COUNT ==> is_pack_entry(#[trigger] packs@[j], j),
            r@ == shop_upto(gold, banned@, builds_remaining, i as nat),
        decreases packs@.len() - i,
    {
        let p = &packs[i];
        proof {
            assert(is_pack_entry(packs@[i as int], i as int));
        }
        if !kinds_contain(banned, p.kind) {
            r.push((i, gold >= p.cost && builds_remaining > 0));
        }
        i = i + 1;
    }
    r
}

} // verus!
