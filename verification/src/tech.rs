use vstd::prelude::*;
use std::collections::HashMap;
use crate::unit::{kind_index_spec, kinds_contain, lemma_kind_index_injective, UnitKind, KIND_COUNT};

verus! {

/// Every upgrade a player can buy for one of their unit kinds.
#[derive(Clone, Copy, Debug, PartialEq, Eq, Hash, Structural)]
pub enum TechId {
    // Universal techs
    RangeBoost,
    ArmorBoost,
    SplashBoost,
    // Unique per-kind techs
    StrikerRapidFire,
    SentinelBarrier,
    RangerPierce,
    ScoutEvasion,
    BruiserCleave,
    ArtillerySlow,
    ArtilleryBlastRadius,
    ChaffOverwhelm,
    SniperArmorPierce,
    SkirmisherSwarm,
    DragoonFortify,
    BerserkerLifesteal,
    ShieldBarrierExpand,
    InterceptorDualWeapon,
}

/// Number of distinct techs.
pub const TECH_COUNT: usize = 17;

/// The techs in catalogue order.
pub open spec fn tech_catalogue() -> Seq<TechId> {
    seq![
        TechId::RangeBoost,
        TechId::ArmorBoost,
        TechId::SplashBoost,
        TechId::StrikerRapidFire,
        TechId::SentinelBarrier,
        TechId::RangerPierce,
        TechId::ScoutEvasion,
        TechId::BruiserCleave,
        TechId::ArtillerySlow,
        TechId::ArtilleryBlastRadius,
        TechId::ChaffOverwhelm,
        TechId::SniperArmorPierce,
        TechId::SkirmisherSwarm,
        TechId::DragoonFortify,
        TechId::BerserkerLifesteal,
        TechId::ShieldBarrierExpand,
        TechId::InterceptorDualWeapon,
    ]
}

/// Display name of a tech.
pub open spec fn tech_name(id: TechId) -> Seq<char> {
    match id {
        TechId::RangeBoost => "+Range"@,
        TechId::ArmorBoost => "+Armor"@,
        TechId::SplashBoost => "+Splash"@,
        TechId::StrikerRapidFire => "Rapid Fire"@,
        TechId::SentinelBarrier => "Barrier"@,
        TechId::RangerPierce => "Pierce"@,
        TechId::ScoutEvasion => "Evasion"@,
        TechId::BruiserCleave => "Cleave"@,
        TechId::ArtillerySlow => "Slow Shells"@,
        TechId::ArtilleryBlastRadius => "Blast Radius"@,
        TechId::ChaffOverwhelm => "Overwhelm"@,
        TechId::SniperArmorPierce => "Armor Pierce"@,
        TechId::SkirmisherSwarm => "Swarm"@,
        TechId::DragoonFortify => "Fortify"@,
        TechId::BerserkerLifesteal => "Lifesteal"@,
        TechId::ShieldBarrierExpand => "Expand Barrier"@,
        TechId::InterceptorDualWeapon => "Dual Weapon"@,
    }
}

/// One-line description of a tech.
pub open spec fn tech_description(id: TechId) -> Seq<char> {
    match id {
        TechId::RangeBoost => "+30 attack range"@,
        TechId::ArmorBoost => "+30 armor"@,
        TechId::SplashBoost => "+15 splash radius"@,
        TechId::StrikerRapidFire => "+0.5 attack speed"@,
        TechId::SentinelBarrier => "Projects shield (r=50)"@,
        TechId::RangerPierce => "Shots hit 2 targets"@,
        TechId::ScoutEvasion => "25% dodge chance"@,
        TechId::BruiserCleave => "Splash ignores armor"@,
        TechId::ArtillerySlow => "Hits slow enemies 50% for 2s"@,
        TechId::ArtilleryBlastRadius => "+25 splash radius"@,
        TechId::ChaffOverwhelm => "+2 dmg per nearby chaff"@,
        TechId::SniperArmorPierce => "Shots ignore armor"@,
        TechId::SkirmisherSwarm => "+20% move speed"@,
        TechId::DragoonFortify => "+300 HP, +20 armor"@,
        TechId::BerserkerLifesteal => "Heal on hit (scales w/ rage)"@,
        TechId::ShieldBarrierExpand => "+30 shield radius"@,
        TechId::InterceptorDualWeapon => "Intercept + attack same frame"@,
    }
}

/// The unit kinds a tech can be bought for, in catalogue order.
pub open spec fn tech_applicable(id: TechId) -> Seq<UnitKind> {
    match id {
        TechId::RangeBoost => seq![UnitKind::Striker, UnitKind::Ranger, UnitKind::Scout, UnitKind::Artillery, UnitKind::Sniper, UnitKind::Skirmisher, UnitKind::Dragoon, UnitKind::Interceptor],
        TechId::ArmorBoost => seq![UnitKind::Striker, UnitKind::Sentinel, UnitKind::Ranger, UnitKind::Scout, UnitKind::Bruiser, UnitKind::Artillery, UnitKind::Sniper, UnitKind::Skirmisher, UnitKind::Dragoon, UnitKind::Berserker, UnitKind::Shield, UnitKind::Interceptor],
        TechId::SplashBoost => seq![UnitKind::Sentinel, UnitKind::Bruiser, UnitKind::Artillery, UnitKind::Berserker],
        TechId::StrikerRapidFire => seq![UnitKind::Striker],
        TechId::SentinelBarrier => seq![UnitKind::Sentinel],
        TechId::RangerPierce => seq![UnitKind::Ranger],
        TechId::ScoutEvasion => seq![UnitKind::Scout],
        TechId::BruiserCleave => seq![UnitKind::Bruiser],
        TechId::ArtillerySlow => seq![UnitKind::Artillery],
        TechId::ArtilleryBlastRadius => seq![UnitKind::Artillery],
        TechId::ChaffOverwhelm => seq![UnitKind::Chaff],
        TechId::SniperArmorPierce => seq![UnitKind::Sniper, UnitKind::Striker],
        TechId::SkirmisherSwarm => seq![UnitKind::Skirmisher],
        TechId::DragoonFortify => seq![UnitKind::Dragoon],
        TechId::BerserkerLifesteal => seq![UnitKind::Berserker],
        TechId::ShieldBarrierExpand => seq![UnitKind::Shield],
        TechId::InterceptorDualWeapon => seq![UnitKind::Interceptor],
    }
}

/// A catalogue entry: a tech with its presentation and the kinds it applies to.
pub struct TechDef {
    pub id: TechId,
    pub name: &'static str,
    pub description: &'static str,
    pub applicable_to: &'static [UnitKind],
}

/// `def` is the catalogue entry of its own id.
pub open spec fn is_catalogue_entry(def: TechDef) -> bool {
    &&& def.name@ == tech_name(def.id)
    &&& def.description@ == tech_description(def.id)
    &&& def.applicable_to@ == tech_applicable(def.id)
}

/// The full tech catalogue, in a fixed order.
pub fn all_techs() -> (defs: &'static [TechDef])
    ensures
        defs@.len() == TECH_COUNT,
        forall|i: int| 0 <= i < TECH_COUNT ==> #[trigger] defs@[i].id == tech_catalogue()[i],
        forall|i: int| 0 <= i < TECH_COUNT ==> is_catalogue_entry(#[trigger] defs@[i]),
{
    let defs: &'static [TechDef] = &[
        TechDef {
            id: TechId::RangeBoost,
            name: "+Range",
            description: "+30 attack range",
            applicable_to: &[UnitKind::Striker, UnitKind::Ranger, UnitKind::Scout, UnitKind::Artillery, UnitKind::Sniper, UnitKind::Skirmisher, UnitKind::Dragoon, UnitKind::Interceptor],
        },
        TechDef {
            id: TechId::ArmorBoost,
            name: "+Armor",
            description: "+30 armor",
            applicable_to: &[UnitKind::Striker, UnitKind::Sentinel, UnitKind::Ranger, UnitKind::Scout, UnitKind::Bruiser, UnitKind::Artillery, UnitKind::Sniper, UnitKind::Skirmisher, UnitKind::Dragoon, UnitKind::Berserker, UnitKind::Shield, UnitKind::Interceptor],
        },
        TechDef {
            id: TechId::SplashBoost,
            name: "+Splash",
            description: "+15 splash radius",
            applicable_to: &[UnitKind::Sentinel, UnitKind::Bruiser, UnitKind::Artillery, UnitKind::Berserker],
        },
        TechDef {
            id: TechId::StrikerRapidFire,
            name: "Rapid Fire",
            description: "+0.5 attack speed",
            applicable_to: &[UnitKind::Striker],
        },
        TechDef {
            id: TechId::SentinelBarrier,
            name: "Barrier",
            description: "Projects shield (r=50)",
            applicable_to: &[UnitKind::Sentinel],
        },
        TechDef {
            id: TechId::RangerPierce,
            name: "Pierce",
            description: "Shots hit 2 targets",
            applicable_to: &[UnitKind::Ranger],
        },
        TechDef {
            id: TechId::ScoutEvasion,
            name: "Evasion",
            description: "25% dodge chance",
            applicable_to: &[UnitKind::Scout],
        },
        TechDef {
            id: TechId::BruiserCleave,
            name: "Cleave",
            description: "Splash ignores armor",
            applicable_to: &[UnitKind::Bruiser],
        },
        TechDef {
            id: TechId::ArtillerySlow,
            name: "Slow Shells",
            description: "Hits slow enemies 50% for 2s",
            applicable_to: &[UnitKind::Artillery],
        },
        TechDef {
            id: TechId::ArtilleryBlastRadius,
            name: "Blast Radius",
            description: "+25 splash radius",
            applicable_to: &[UnitKind::Artillery],
        },
        TechDef {
            id: TechId::ChaffOverwhelm,
            name: "Overwhelm",
            description: "+2 dmg per nearby chaff",
            applicable_to: &[UnitKind::Chaff],
        },
        TechDef {
            id: TechId::SniperArmorPierce,
            name: "Armor Pierce",
            description: "Shots ignore armor",
            applicable_to: &[UnitKind::Sniper, UnitKind::Striker],
        },
        TechDef {
            id: TechId::SkirmisherSwarm,
            name: "Swarm",
            description: "+20% move speed",
            applicable_to: &[UnitKind::Skirmisher],
        },
        TechDef {
            id: TechId::DragoonFortify,
            name: "Fortify",
            description: "+300 HP, +20 armor",
            applicable_to: &[UnitKind::Dragoon],
        },
        TechDef {
            id: TechId::BerserkerLifesteal,
            name: "Lifesteal",
            description: "Heal on hit (scales w/ rage)",
            applicable_to: &[UnitKind::Berserker],
        },
        TechDef {
            id: TechId::ShieldBarrierExpand,
            name: "Expand Barrier",
            description: "+30 shield radius",
            applicable_to: &[UnitKind::Shield],
        },
        TechDef {
            id: TechId::InterceptorDualWeapon,
            name: "Dual Weapon",
            description: "Intercept + attack same frame",
            applicable_to: &[UnitKind::Interceptor],
        },
    ];
    assert(forall|i: int| 0 <= i < TECH_COUNT ==> (#[trigger] defs@[i]).name@ == tech_name(defs@[i].id));
    assert(forall|i: int| 0 <= i < TECH_COUNT ==> (#[trigger] defs@[i]).description@ == tech_description(defs@[i].id));
    assert(forall|i: int| 0 <= i < TECH_COUNT ==> (#[trigger] defs@[i]).applicable_to@ == tech_applicable(defs@[i].id));
    defs
}

/// Catalogue position of a tech.
pub open spec fn tech_index_spec(id: TechId) -> int {
    match id {
        TechId::RangeBoost => 0,
        TechId::ArmorBoost => 1,
        TechId::SplashBoost => 2,
        TechId::StrikerRapidFire => 3,
        TechId::SentinelBarrier => 4,
        TechId::RangerPierce => 5,
        TechId::ScoutEvasion => 6,
        TechId::BruiserCleave => 7,
        TechId::ArtillerySlow => 8,
        TechId::ArtilleryBlastRadius => 9,
        TechId::ChaffOverwhelm => 10,
        TechId::SniperArmorPierce => 11,
        TechId::SkirmisherSwarm => 12,
        TechId::DragoonFortify => 13,
        TechId::BerserkerLifesteal => 14,
        TechId::ShieldBarrierExpand => 15,
        TechId::InterceptorDualWeapon => 16,
    }
}

/// A list of techs without repeats holds at most one of each tech.
pub proof fn lemma_distinct_techs_bounded(s: Seq<TechId>)
    requires
        s.no_duplicates(),
    ensures
        s.len() <= TECH_COUNT,
{
    let all = tech_catalogue().to_set();
    assert(tech_catalogue().no_duplicates()) by {
        assert forall|i: int, j: int|
            0 <= i < tech_catalogue().len() && 0 <= j < tech_catalogue().len() && i != j implies
            tech_catalogue()[i] != tech_catalogue()[j] by {
            assert(tech_index_spec(tech_catalogue()[i]) == i);
            assert(tech_index_spec(tech_catalogue()[j]) == j);
        }
    }
    tech_catalogue().unique_seq_to_set();
    assert forall|t: TechId| s.to_set().contains(t) implies all.contains(t) by {
        assert(tech_catalogue()[tech_index_spec(t)] == t);
    }
    s.unique_seq_to_set();
    vstd::set_lib::lemma_len_subset(s.to_set(), all);
}

/// The techs each player has bought, per unit kind.
///
/// A map from the kind's index (its declaration position) to the techs
/// bought for it; a kind appears once something was bought for it. A list
/// never holds the same tech twice and keeps purchase order.
#[derive(Debug)]
pub struct TechState {
    purchased: HashMap<usize, Vec<TechId>>,
}

impl TechState {
    #[verifier::type_invariant]
    spec fn well_formed(self) -> bool {
        forall|k: usize| #[trigger] self.purchased@.contains_key(k) ==> self.purchased@[k]@.no_duplicates()
    }

    /// The techs bought for `kind`, in purchase order.
    pub closed spec fn techs(self, kind: UnitKind) -> Seq<TechId> {
        let i = kind_index_spec(kind) as usize;
        if self.purchased@.contains_key(i) {
            self.purchased@[i]@
        } else {
            Seq::empty()
        }
    }

    /// The list for `kind` as held in the map (empty when the kind has none).
    fn list_of(&self, kind: UnitKind) -> (l: Vec<TechId>)
        ensures
            l@ == self.techs(kind),
    {
        broadcast use vstd::std_specs::hash::group_hash_axioms;
        proof {
            lemma_kind_index_injective(kind, kind);
        }
        match self.purchased.get(&kind.index()) {
            Some(v) => {
                let c = v.clone();
                proof {
                    assert(c@ =~= v@);
                }
                c
            },
            None => Vec::new(),
        }
    }

    /// A state with nothing bought.
    pub fn new() -> (s: Self)
        ensures
            forall|k: UnitKind| (#[trigger] s.techs(k)) == Seq::<TechId>::empty(),
    {
        Self { purchased: HashMap::new() }
    }

    /// Number of techs bought for `kind`.
    pub fn tech_count(&self, kind: UnitKind) -> (n: usize)
        ensures
            n == self.techs(kind).len(),
            n <= TECH_COUNT,
    {
        broadcast use vstd::std_specs::hash::group_hash_axioms;
        proof {
            use_type_invariant(self);
            lemma_kind_index_injective(kind, kind);
            lemma_distinct_techs_bounded(self.techs(kind));
        }
        match self.purchased.get(&kind.index()) {
            Some(v) => v.len(),
            None => 0,
        }
    }

    /// Cost = 200 + (number of techs already bought for this kind) * 200
    pub fn effective_cost(&self, kind: UnitKind) -> (cost: u32)
        ensures
            cost == tech_price(self.techs(kind).len()),
    {
        200 + self.tech_count(kind) as u32 * 200
    }

    /// Whether `tech_id` has been bought for `kind`.
    pub fn has_tech(&self, kind: UnitKind, tech_id: TechId) -> (b: bool)
        ensures
            b == self.techs(kind).contains(tech_id),
    {
        broadcast use vstd::std_specs::hash::group_hash_axioms;
        proof {
            lemma_kind_index_injective(kind, kind);
        }
        match self.purchased.get(&kind.index()) {
            None => false,
            Some(list) => {
                assert(list@ == self.techs(kind));
                let mut i: usize = 0;
                while i < list.len()
                    invariant
                        list@ == self.techs(kind),
                        i <= list@.len(),
                        forall|j: int| 0 <= j < i ==> list@[j] != tech_id,
                    decreases list@.len() - i,
                {
                    if list[i] == tech_id {
                        assert(self.techs(kind)[i as int] == tech_id);
                        return true;
                    }
                    i = i + 1;
                }
                false
            },
        }
    }

    /// Buys `tech_id` for `kind`; refused (returning false, nothing changed)
    /// when it is already owned.
    pub fn purchase(&mut self, kind: UnitKind, tech_id: TechId) -> (bought: bool)
        ensures
            bought == !old(self).techs(kind).contains(tech_id),
            final(self).techs(kind) == (if bought {
                old(self).techs(kind).push(tech_id)
            } else {
                old(self).techs(kind)
            }),
            forall|k: UnitKind| k != kind ==> (#[trigger] final(self).techs(k)) == old(self).techs(k),
    {
        broadcast use vstd::std_specs::hash::group_hash_axioms;
        proof {
            use_type_invariant(&*self);
            lemma_kind_index_injective(kind, kind);
        }
        if self.has_tech(kind, tech_id) {
            return false;
        }
        let mut list = self.list_of(kind);
        list.push(tech_id);
        proof {
            assert(list@.drop_last() == old(self).techs(kind));
            if !old(self).purchased@.contains_key(kind_index_spec(kind) as usize) {
                assert(list@ =~= seq![tech_id]);
            }
        }
        let mut m = HashMap::new();
        std::mem::swap(&mut m, &mut self.purchased);
        m.insert(kind.index(), list);
        self.purchased = m;
        proof {
            assert forall|k: UnitKind| k != kind implies (#[trigger] self.techs(k)) == old(self).techs(k) by {
                lemma_kind_index_injective(k, kind);
            }
        }
        true
    }

    /// Remove a purchased tech (for undo).
    pub fn unpurchase(&mut self, kind: UnitKind, tech_id: TechId)
        ensures
            final(self).techs(kind) == old(self).techs(kind).filter(|t: TechId| t != tech_id),
            forall|k: UnitKind| k != kind ==> (#[trigger] final(self).techs(k)) == old(self).techs(k),
    {
        broadcast use vstd::std_specs::hash::group_hash_axioms;
        proof {
            use_type_invariant(&*self);
            lemma_kind_index_injective(kind, kind);
        }
        let i = kind.index();
        let ghost keep = |t: TechId| t != tech_id;
        let before = match self.purchased.get(&i) {
            Some(v) => v,
            None => {
                proof {
                    assert(Seq::<TechId>::empty().filter(keep) =~= Seq::<TechId>::empty());
                }
                return;
            },
        };
        let ghost bv = before@;
        assert(bv.no_duplicates());
        let mut kept: Vec<TechId> = Vec::new();
        let mut j: usize = 0;
        while j < before.len()
            invariant
                bv == before@,
                bv.no_duplicates(),
                keep == (|t: TechId| t != tech_id),
                j <= bv.len(),
                kept@ == bv.take(j as int).filter(keep),
                kept@.no_duplicates(),
            decreases bv.len() - j,
        {
            let t = before[j];
            proof {
                assert(t == bv[j as int]);
                assert(bv.take(j as int + 1) =~= bv.take(j as int).push(t));
                bv.take(j as int).lemma_filter_push(t, keep);
            }
            if t != tech_id {
                proof {
                    if kept@.contains(t) {
                        bv.take(j as int).lemma_filter_contains_rev(keep, t);
                        let a = choose|a: int| 0 <= a < j && #[trigger] bv.take(j as int)[a] == t;
                        assert(bv[a] == bv[j as int]);
                    }
                }
                kept.push(t);
            }
            j = j + 1;
        }
        proof {
            assert(bv.take(bv.len() as int) == bv);
        }
        let mut m = HashMap::new();
        std::mem::swap(&mut m, &mut self.purchased);
        m.insert(i, kept);
        self.purchased = m;
        proof {
            assert forall|k: UnitKind| k != kind implies (#[trigger] self.techs(k)) == old(self).techs(k) by {
                lemma_kind_index_injective(k, kind);
            }
        }
    }
}

/// A tech still on offer for `kind`: it applies to the kind and is not owned yet.
pub open spec fn offered_for(owned: Seq<TechId>, kind: UnitKind) -> spec_fn(TechId) -> bool {
    |id: TechId| tech_applicable(id).contains(kind) && !owned.contains(id)
}

impl TechState {
    /// Get available (not yet purchased) techs for a given unit kind, in
    /// catalogue order.
    pub fn available_techs(&self, kind: UnitKind) -> (r: Vec<&'static TechDef>)
        ensures
            r@.map_values(|d: &TechDef| d.id) == tech_catalogue().filter(
                offered_for(self.techs(kind), kind),
            ),
            forall|i: int| 0 <= i < r@.len() ==> is_catalogue_entry(*#[trigger] r@[i]),
    {
        let defs = all_techs();
        let ghost pred = offered_for(self.techs(kind), kind);
        let mut r: Vec<&'static TechDef> = Vec::new();
        let mut i: usize = 0;
        while i < defs.len()
            invariant
                pred == offered_for(self.techs(kind), kind),
                defs@.len() == TECH_COUNT,
                forall|j: int| 0 <= j < TECH_COUNT ==> #[trigger] defs@[j].id == tech_catalogue()[j],
                forall|j: int| 0 <= j < TECH_COUNT ==> is_catalogue_entry(#[trigger] defs@[j]),
                i <= defs@.len(),
                r@.map_values(|d: &TechDef| d.id) == tech_catalogue().take(i as int).filter(pred),
                forall|j: int| 0 <= j < r@.len() ==> is_catalogue_entry(*#[trigger] r@[j]),
            decreases defs@.len() - i,
        {
            let d: &'static TechDef = &defs[i];
            proof {
                assert(tech_catalogue().take(i as int + 1) =~= tech_catalogue().take(i as int).push(d.id));
                tech_catalogue().take(i as int).lemma_filter_push(d.id, pred);
                assert(is_catalogue_entry(*d));
            }
            if kinds_contain(d.applicable_to, kind) && !self.has_tech(kind, d.id) {
                let ghost old_r = r@;
                r.push(d);
                proof {
                    assert(r@.map_values(|d: &TechDef| d.id) =~= old_r.map_values(|d: &TechDef| d.id).push(d.id));
                }
            }
            i = i + 1;
        }
        proof {
            assert(tech_catalogue().take(TECH_COUNT as int) =~= tech_catalogue());
        }
        r
    }
}

impl Clone for TechState {
    fn clone(&self) -> (c: Self)
        ensures
            forall|k: UnitKind| (#[trigger] c.techs(k)) == self.techs(k),
    {
        proof {
            use_type_invariant(self);
        }
        TechState { purchased: self.purchased.clone() }
    }
}

/// Price of the next tech for a kind that already owns `owned` techs.
pub open spec fn tech_price(owned: nat) -> int {
    200 + 200 * (owned as int)
}

/// Removing a tech that a list never held leaves the list as it was.
proof fn lemma_filter_absent(owned: Seq<TechId>, t: TechId)
    requires
        !owned.contains(t),
    ensures
        owned.filter(|x: TechId| x != t) == owned,
    decreases owned.len(),
{
    reveal_with_fuel(Seq::<_>::filter, 1);
    if owned.len() > 0 {
        let rest = owned.drop_last();
        assert(!rest.contains(t)) by {
            if rest.contains(t) {
                let a = choose|a: int| 0 <= a < rest.len() && rest[a] == t;
                assert(owned[a] == t);
            }
        }
        lemma_filter_absent(rest, t);
        assert(owned.last() != t) by {
            assert(owned[owned.len() - 1] == owned.last());
        }
        assert(rest.push(owned.last()) =~= owned);
    } else {
        assert(owned.filter(|x: TechId| x != t) =~= owned);
    }
}

/// Undo law: buying a tech the kind did not own and then un-buying it
/// gives back exactly the list the kind had before.
pub proof fn lemma_unpurchase_undoes_purchase(owned: Seq<TechId>, t: TechId)
    requires
        !owned.contains(t),
    ensures
        owned.push(t).filter(|x: TechId| x != t) == owned,
{
    owned.lemma_filter_push(t, |x: TechId| x != t);
    lemma_filter_absent(owned, t);
}

/// Pricing law: every successful purchase raises the price of the next
/// tech for that kind by 200, and a bought tech is no longer offered.
pub proof fn lemma_purchase_raises_price(owned: Seq<TechId>, t: TechId, kind: UnitKind)
    requires
        !owned.contains(t),
    ensures
        tech_price(owned.push(t).len()) == tech_price(owned.len()) + 200,
        owned.push(t).contains(t),
        !offered_for(owned.push(t), kind)(t),
{
    assert(owned.push(t)[owned.len() as int] == t);
}

} // verus!
