use vstd::prelude::*;

verus! {

/// Silhouette used to draw a unit.
#[derive(Clone, Copy, Debug, PartialEq, Eq, Hash, Structural)]
pub enum UnitShape {
    Triangle,
    Square,
    Diamond,
    Circle,
    Hexagon,
    Pentagon,
    Dot,
    Star,
    Cross,
    Octagon,
}

/// Visual/behavioural kind of a projectile.
#[derive(Clone, Copy, Debug, PartialEq, Eq, Hash, Structural)]
pub enum ProjectileType {
    Bullet,
    Laser,
    Rocket,
}

/// The thirteen unit kinds a player can field.
#[derive(Clone, Copy, Debug, PartialEq, Eq, Hash, Structural)]
pub enum UnitKind {
    Striker,
    Sentinel,
    Ranger,
    Scout,
    Bruiser,
    Artillery,
    Chaff,
    Sniper,
    Skirmisher,
    Dragoon,
    Berserker,
    Shield,
    Interceptor,
}

/// Number of unit kinds.
pub const KIND_COUNT: usize = 13;

/// Position of a kind in declaration order.
pub open spec fn kind_index_spec(kind: UnitKind) -> int {
    match kind {
        UnitKind::Striker => 0,
        UnitKind::Sentinel => 1,
        UnitKind::Ranger => 2,
        UnitKind::Scout => 3,
        UnitKind::Bruiser => 4,
        UnitKind::Artillery => 5,
        UnitKind::Chaff => 6,
        UnitKind::Sniper => 7,
        UnitKind::Skirmisher => 8,
        UnitKind::Dragoon => 9,
        UnitKind::Berserker => 10,
        UnitKind::Shield => 11,
        UnitKind::Interceptor => 12,
    }
}

impl UnitKind {
    /// Position of this kind in declaration order (0..13).
    pub fn index(self) -> (i: usize)
        ensures
            i == kind_index_spec(self),
            i < KIND_COUNT,
    {
        match self {
            UnitKind::Striker => 0,
            UnitKind::Sentinel => 1,
            UnitKind::Ranger => 2,
            UnitKind::Scout => 3,
            UnitKind::Bruiser => 4,
            UnitKind::Artillery => 5,
            UnitKind::Chaff => 6,
            UnitKind::Sniper => 7,
            UnitKind::Skirmisher => 8,
            UnitKind::Dragoon => 9,
            UnitKind::Berserker => 10,
            UnitKind::Shield => 11,
            UnitKind::Interceptor => 12,
        }
    }
}

/// Distinct kinds have distinct indices.
pub proof fn lemma_kind_index_injective(a: UnitKind, b: UnitKind)
    ensures
        kind_index_spec(a) == kind_index_spec(b) <==> a == b,
        0 <= kind_index_spec(a) < KIND_COUNT,
{
}

/// The gameplay-relevant identity of a unit as the match rules see it:
/// who owns it, what it is, and whether it still stands.
#[derive(Clone, Copy, Debug, PartialEq, Eq, Structural)]
pub struct UnitStatus {
    pub id: u64,
    pub kind: UnitKind,
    pub player_id: u16,
    pub alive: bool,
}

/// Whether `kind` occurs in `kinds`.
pub(crate) fn kinds_contain(kinds: &[UnitKind], kind: UnitKind) -> (b: bool)
    ensures
        b == kinds@.contains(kind),
{
    let mut i: usize = 0;
    while i < kinds.len()
        invariant
            i <= kinds@.len(),
            forall|j: int| 0 <= j < i ==> kinds@[j] != kind,
        decreases kinds@.len() - i,
    {
        if kinds[i] == kind {
            assert(kinds@[i as int] == kind);
            return true;
        }
        i = i + 1;
    }
    false
}

/// All kinds in declaration order.
pub open spec fn all_kinds_spec() -> Seq<UnitKind> {
    seq![
        UnitKind::Striker, UnitKind::Sentinel, UnitKind::Ranger, UnitKind::Scout,
        UnitKind::Bruiser, UnitKind::Artillery, UnitKind::Chaff, UnitKind::Sniper,
        UnitKind::Skirmisher, UnitKind::Dragoon, UnitKind::Berserker,
        UnitKind::Shield, UnitKind::Interceptor,
    ]
}

/// Declaration order lists each kind at its own index.
pub proof fn lemma_all_kinds(kind: UnitKind)
    ensures
        all_kinds_spec().len() == KIND_COUNT,
        all_kinds_spec()[kind_index_spec(kind)] == kind,
        forall|i: int| 0 <= i < KIND_COUNT ==> kind_index_spec(#[trigger] all_kinds_spec()[i]) == i,
{
}

/// The kind at position `i` in declaration order.
pub(crate) fn kind_at(i: usize) -> (kind: UnitKind)
    requires
        i < KIND_COUNT,
    ensures
        kind == all_kinds_spec()[i as int],
{
    match i {
        0 => UnitKind::Striker,
        1 => UnitKind::Sentinel,
        2 => UnitKind::Ranger,
        3 => UnitKind::Scout,
        4 => UnitKind::Bruiser,
        5 => UnitKind::Artillery,
        6 => UnitKind::Chaff,
        7 => UnitKind::Sniper,
        8 => UnitKind::Skirmisher,
        9 => UnitKind::Dragoon,
        10 => UnitKind::Berserker,
        11 => UnitKind::Shield,
        _ => UnitKind::Interceptor,
    }
}

/// All kinds in declaration order.
pub const ALL_KINDS: [UnitKind; 13] = [
    UnitKind::Striker, UnitKind::Sentinel, UnitKind::Ranger, UnitKind::Scout,
    UnitKind::Bruiser, UnitKind::Artillery, UnitKind::Chaff, UnitKind::Sniper,
    UnitKind::Skirmisher, UnitKind::Dragoon, UnitKind::Berserker,
    UnitKind::Shield, UnitKind::Interceptor,
];

/// The shape a kind is drawn with.
pub open spec fn kind_shape(kind: UnitKind) -> UnitShape {
    match kind {
        UnitKind::Striker => UnitShape::Triangle,
        UnitKind::Sentinel => UnitShape::Square,
        UnitKind::Ranger => UnitShape::Diamond,
        UnitKind::Scout => UnitShape::Circle,
        UnitKind::Bruiser => UnitShape::Hexagon,
        UnitKind::Artillery => UnitShape::Pentagon,
        UnitKind::Chaff => UnitShape::Dot,
        UnitKind::Sniper => UnitShape::Cross,
        UnitKind::Skirmisher => UnitShape::Dot,
        UnitKind::Dragoon => UnitShape::Octagon,
        UnitKind::Berserker => UnitShape::Star,
        UnitKind::Shield => UnitShape::Square,
        UnitKind::Interceptor => UnitShape::Diamond,
    }
}

/// What a kind fires: rangers and snipers lasers, artillery rockets, the
/// rest bullets.
pub open spec fn kind_projectile(kind: UnitKind) -> ProjectileType {
    match kind {
        UnitKind::Ranger | UnitKind::Sniper => ProjectileType::Laser,
        UnitKind::Artillery => ProjectileType::Rocket,
        _ => ProjectileType::Bullet,
    }
}

impl UnitKind {
    /// The shape this kind is drawn with.
    pub fn shape(self) -> (s: UnitShape)
        ensures
            s == kind_shape(self),
    {
        match self {
            UnitKind::Striker => UnitShape::Triangle,
            UnitKind::Sentinel => UnitShape::Square,
            UnitKind::Ranger => UnitShape::Diamond,
            UnitKind::Scout => UnitShape::Circle,
            UnitKind::Bruiser => UnitShape::Hexagon,
            UnitKind::Artillery => UnitShape::Pentagon,
            UnitKind::Chaff => UnitShape::Dot,
            UnitKind::Sniper => UnitShape::Cross,
            UnitKind::Skirmisher => UnitShape::Dot,
            UnitKind::Dragoon => UnitShape::Octagon,
            UnitKind::Berserker => UnitShape::Star,
            UnitKind::Shield => UnitShape::Square,
            UnitKind::Interceptor => UnitShape::Diamond,
        }
    }

    /// What this kind fires.
    pub fn projectile_type(self) -> (p: ProjectileType)
        ensures
            p == kind_projectile(self),
    {
        match self {
            UnitKind::Ranger | UnitKind::Sniper => ProjectileType::Laser,
            UnitKind::Artillery => ProjectileType::Rocket,
            _ => ProjectileType::Bullet,
        }
    }
}

} // verus!
