//! Items as the item database describes them, and the table that orders
//! their stats.
use crate::identification::{Identification, StatusId};
use vstd::prelude::*;
use vstd::string::*;

verus! {

/// The rarity tiers of items.
#[derive(Debug, PartialEq, Eq, Structural, Clone, Copy)]
pub enum Rarity {
    Normal,
    Unique,
    Rare,
    Legendary,
    Fabled,
    Mythic,
    SetItem,
}

/// The kinds of items.
#[derive(Debug, PartialEq, Eq, Structural, Clone, Copy)]
pub enum Type {
    Spear,
    Wand,
    Bow,
    Dagger,
    Relik,
    Helmet,
    Chestplate,
    Leggings,
    Boots,
    Ring,
    Bracelet,
    Necklace,
}

/// The attack speeds of weapons.
#[derive(Debug, PartialEq, Eq, Structural, Clone, Copy)]
pub enum AttackSpeed {
    SuperSlow,
    VerySlow,
    Slow,
    Normal,
    Fast,
    VeryFast,
    SuperFast,
}

/// The display name of a rarity.
pub open spec fn rarity_name(r: Rarity) -> Seq<char> {
    match r {
        Rarity::Normal => "Normal"@,
        Rarity::Unique => "Unique"@,
        Rarity::Rare => "Rare"@,
        Rarity::Legendary => "Legendary"@,
        Rarity::Fabled => "Fabled"@,
        Rarity::Mythic => "Mythic"@,
        Rarity::SetItem => "Set"@,
    }
}

/// The display name of an item kind.
pub open spec fn item_type_name(t: Type) -> Seq<char> {
    match t {
        Type::Spear => "Spear"@,
        Type::Wand => "Wand"@,
        Type::Bow => "Bow"@,
        Type::Dagger => "Dagger"@,
        Type::Relik => "Relik"@,
        Type::Helmet => "Helmet"@,
        Type::Chestplate => "Chestplate"@,
        Type::Leggings => "Leggings"@,
        Type::Boots => "Boots"@,
        Type::Ring => "Ring"@,
        Type::Bracelet => "Bracelet"@,
        Type::Necklace => "Necklace"@,
    }
}

/// The display name of an attack speed.
pub open spec fn speed_name(s: AttackSpeed) -> Seq<char> {
    match s {
        AttackSpeed::SuperSlow => "Super Slow"@,
        AttackSpeed::VerySlow => "Very Slow"@,
        AttackSpeed::Slow => "Slow Attack"@,
        AttackSpeed::Normal => "Normal"@,
        AttackSpeed::Fast => "Fast"@,
        AttackSpeed::VeryFast => "Very Fast"@,
        AttackSpeed::SuperFast => "Super Fast"@,
    }
}

/// The colour of each rarity, as `0xRRGGBB`.
pub const NORMAL_ITEM: u32 = 0xFFFFFF;
pub const UNIQUE_ITEM: u32 = 0xFFFF55;
pub const RARE_ITEM: u32 = 0xF752F7;
pub const LEGENDARY_ITEM: u32 = 0x00FFFF;
pub const FABLED_ITEM: u32 = 0xFF5555;
pub const MYTHIC_ITEM: u32 = 0xAA00AA;
pub const SET_ITEM: u32 = 0x289618;

/// The colour of a rarity, as `0xRRGGBB`.
pub open spec fn rarity_color(r: Rarity) -> u32 {
    match r {
        Rarity::Normal => 0xFFFFFF,
        Rarity::Unique => 0xFFFF55,
        Rarity::Rare => 0xF752F7,
        Rarity::Legendary => 0x00FFFF,
        Rarity::Fabled => 0xFF5555,
        Rarity::Mythic => 0xAA00AA,
        Rarity::SetItem => 0x289618,
    }
}

/// General information on an item.
#[derive(Debug, Clone)]
pub struct ItemInfo {
    pub item_type: Type,
}

/// The skill and level requirements to wear an item.
#[derive(Debug, Clone)]
pub struct Requirements {
    pub level: Option<i32>,
    pub strength: Option<i32>,
    pub dexterity: Option<i32>,
    pub intelligence: Option<i32>,
    pub defence: Option<i32>,
    pub agility: Option<i32>,
}

/// The damage ranges of a weapon, as the database writes them.
#[derive(Debug, Clone)]
pub struct DamageTypes {
    pub neutral: Option<String>,
    pub earth: Option<String>,
    pub thunder: Option<String>,
    pub water: Option<String>,
    pub fire: Option<String>,
    pub air: Option<String>,
}

/// The health and elemental defences of an armour piece.
#[derive(Debug, Clone)]
pub struct DefenseTypes {
    pub health: Option<i32>,
    pub earth: Option<i32>,
    pub thunder: Option<i32>,
    pub water: Option<i32>,
    pub fire: Option<i32>,
    pub air: Option<i32>,
}

/// One item of the database.
///
/// `statuses` holds each stat of the item once, keyed by its kind (see
/// `Item::wf`).
#[derive(Debug, Clone)]
pub struct Item {
    pub display_name: String,
    pub tier: Rarity,
    pub powder_amount: u8,
    pub item_info: ItemInfo,
    pub requirements: Requirements,
    pub damage_types: Option<DamageTypes>,
    pub defense_types: Option<DefenseTypes>,
    pub attack_speed: Option<AttackSpeed>,
    pub statuses: Vec<(Identification, StatusId)>,
    pub wynn_builder_id: Option<i32>,
}

impl Item {
    /// Each stat kind has at most one entry.
    pub open spec fn wf(&self) -> bool {
        forall|i: int, j: int|
            0 <= i < j < self.statuses@.len() ==> #[trigger] self.statuses@[i].0
                != #[trigger] self.statuses@[j].0
    }

    /// Whether each stat kind has at most one entry.
    pub fn is_well_formed(&self) -> (r: bool)
        ensures
            r == self.wf(),
    {
        let n = self.statuses.len();
        let mut j: usize = 0;
        while j < n
            invariant
                n == self.statuses@.len(),
                j <= n,
                forall|a: int, b: int|
                    0 <= a < b < j ==> #[trigger] self.statuses@[a].0
                        != #[trigger] self.statuses@[b].0,
            decreases n - j,
        {
            let mut i: usize = 0;
            while i < j
                invariant
                    n == self.statuses@.len(),
                    i <= j < n,
                    forall|a: int| 0 <= a < i ==> self.statuses@[a].0 != self.statuses@[j as int].0,
                decreases j - i,
            {
                if self.statuses[i].0 == self.statuses[j].0 {
                    return false;
                }
                i = i + 1;
            }
            j = j + 1;
        }
        true
    }

    /// The colour of the item's rarity, as `0xRRGGBB`.
    pub fn get_color(&self) -> (r: u32)
        ensures
            r == rarity_color(self.tier),
    {
        match self.tier {
            Rarity::Normal => NORMAL_ITEM,
            Rarity::Unique => UNIQUE_ITEM,
            Rarity::Rare => RARE_ITEM,
            Rarity::Legendary => LEGENDARY_ITEM,
            Rarity::Fabled => FABLED_ITEM,
            Rarity::Mythic => MYTHIC_ITEM,
            Rarity::SetItem => SET_ITEM,
        }
    }

    /// The display name of the item's rarity.
    pub fn get_rarity(&self) -> (r: String)
        ensures
            r@ == rarity_name(self.tier),
    {
        match self.tier {
            Rarity::Normal => String::from_str("Normal"),
            Rarity::Unique => String::from_str("Unique"),
            Rarity::Rare => String::from_str("Rare"),
            Rarity::Legendary => String::from_str("Legendary"),
            Rarity::Fabled => String::from_str("Fabled"),
            Rarity::Mythic => String::from_str("Mythic"),
            Rarity::SetItem => String::from_str("Set"),
        }
    }

    /// The display name of the item's kind.
    pub fn get_type(&self) -> (r: String)
        ensures
            r@ == item_type_name(self.item_info.item_type),
    {
        match self.item_info.item_type {
            Type::Spear => String::from_str("Spear"),
            Type::Wand => String::from_str("Wand"),
            Type::Bow => String::from_str("Bow"),
            Type::Dagger => String::from_str("Dagger"),
            Type::Relik => String::from_str("Relik"),
            Type::Helmet => String::from_str("Helmet"),
            Type::Chestplate => String::from_str("Chestplate"),
            Type::Leggings => String::from_str("Leggings"),
            Type::Boots => String::from_str("Boots"),
            Type::Ring => String::from_str("Ring"),
            Type::Bracelet => String::from_str("Bracelet"),
            Type::Necklace => String::from_str("Necklace"),
        }
    }

    /// The display name of the item's attack speed, if it has one.
    pub fn get_speed(&self) -> (r: Option<String>)
        ensures
            self.attack_speed is None ==> r is None,
            self.attack_speed matches Some(s) ==> r matches Some(t) && t@ == speed_name(s),
    {
        match self.attack_speed {
            None => None,
            Some(speed) => match speed {
                AttackSpeed::SuperSlow => Some(String::from_str("Super Slow")),
                AttackSpeed::VerySlow => Some(String::from_str("Very Slow")),
                AttackSpeed::Slow => Some(String::from_str("Slow Attack")),
                AttackSpeed::Normal => Some(String::from_str("Normal")),
                AttackSpeed::Fast => Some(String::from_str("Fast")),
                AttackSpeed::VeryFast => Some(String::from_str("Very Fast")),
                AttackSpeed::SuperFast => Some(String::from_str("Super Fast")),
            },
        }
    }
}

/// An inclusive range of ordinals whose stats are shown together.
#[derive(Debug, PartialEq, Eq, Structural, Clone, Copy)]
pub struct IdGroup {
    pub first: i32,
    pub last: i32,
}

impl IdGroup {
    /// Whether `ord` lies in the group.
    pub open spec fn contains_spec(self, ord: i32) -> bool {
        self.first <= ord <= self.last
    }

    /// Whether `ord` lies in the group.
    pub fn contains(&self, ord: i32) -> (r: bool)
        ensures
            r == self.contains_spec(ord),
    {
        self.first <= ord && ord <= self.last
    }
}

/// The standard groups of ordinals.
pub open spec fn standard_groups() -> Seq<IdGroup> {
    seq![
        IdGroup { first: 1, last: 5 },
        IdGroup { first: 6, last: 11 },
        IdGroup { first: 12, last: 17 },
        IdGroup { first: 18, last: 22 },
        IdGroup { first: 23, last: 27 },
        IdGroup { first: 28, last: 31 },
        IdGroup { first: 32, last: 35 },
        IdGroup { first: 36, last: 42 },
        IdGroup { first: 43, last: 50 },
    ]
}

/// The standard groups of ordinals.
pub fn id_groups() -> (r: Vec<IdGroup>)
    ensures
        r@ == standard_groups(),
{
    let r: Vec<IdGroup> = vec![
        IdGroup { first: 1, last: 5 },
        IdGroup { first: 6, last: 11 },
        IdGroup { first: 12, last: 17 },
        IdGroup { first: 18, last: 22 },
        IdGroup { first: 23, last: 27 },
        IdGroup { first: 28, last: 31 },
        IdGroup { first: 32, last: 35 },
        IdGroup { first: 36, last: 42 },
        IdGroup { first: 43, last: 50 },
    ];
    assert(r@ =~= standard_groups());
    r
}

/// The table that orders the stats of every item: each kind's ordinal, the
/// groups of ordinals shown together, and the kinds where a lower value is
/// the better roll.
///
/// Each kind has one ordinal and no two kinds the same one (see
/// `IdentificationOrder::wf`).
#[derive(Debug, Clone)]
pub struct IdentificationOrder {
    pub order: Vec<(Identification, i32)>,
    pub groups: Vec<IdGroup>,
    pub inverted: Vec<Identification>,
}

impl IdentificationOrder {
    /// No kind is listed twice, and no two kinds share an ordinal.
    pub open spec fn wf(&self) -> bool {
        forall|i: int, j: int|
            0 <= i < j < self.order@.len() ==> {
                &&& #[trigger] self.order@[i].0 != #[trigger] self.order@[j].0
                &&& self.order@[i].1 != self.order@[j].1
            }
    }

    /// Whether no kind is listed twice and no two kinds share an ordinal.
    pub fn is_well_formed(&self) -> (r: bool)
        ensures
            r == self.wf(),
    {
        let n = self.order.len();
        let mut j: usize = 0;
        while j < n
            invariant
                n == self.order@.len(),
                j <= n,
                forall|a: int, b: int|
                    0 <= a < b < j ==> {
                        &&& #[trigger] self.order@[a].0 != #[trigger] self.order@[b].0
                        &&& self.order@[a].1 != self.order@[b].1
                    },
            decreases n - j,
        {
            let mut i: usize = 0;
            while i < j
                invariant
                    n == self.order@.len(),
                    i <= j < n,
                    forall|a: int|
                        0 <= a < i ==> self.order@[a].0 != self.order@[j as int].0
                            && self.order@[a].1 != self.order@[j as int].1,
                decreases j - i,
            {
                if self.order[i].0 == self.order[j].0 || self.order[i].1 == self.order[j].1 {
                    return false;
                }
                i = i + 1;
            }
            j = j + 1;
        }
        true
    }
}

/// The item database: every item, keyed by its display name, and the
/// ordering table.
#[derive(Debug, Clone)]
pub struct ItemList {
    pub items: Vec<Item>,
    pub identification_order: IdentificationOrder,
}

impl ItemList {
    /// The ordering table and every item are well formed, and no two items
    /// share a display name.
    pub open spec fn wf(&self) -> bool {
        &&& self.identification_order.wf()
        &&& forall|i: int| 0 <= i < self.items@.len() ==> (#[trigger] self.items@[i]).wf()
        &&& forall|i: int, j: int|
            0 <= i < j < self.items@.len() ==> #[trigger] self.items@[i].display_name@
                != #[trigger] self.items@[j].display_name@
    }

    /// Whether the database is well formed.
    pub fn is_well_formed(&self) -> (r: bool)
        ensures
            r == self.wf(),
    {
        if !self.identification_order.is_well_formed() {
            return false;
        }
        let n = self.items.len();
        let mut j: usize = 0;
        while j < n
            invariant
                n == self.items@.len(),
                j <= n,
                forall|a: int| 0 <= a < j ==> (#[trigger] self.items@[a]).wf(),
                forall|a: int, b: int|
                    0 <= a < b < j ==> #[trigger] self.items@[a].display_name@
                        != #[trigger] self.items@[b].display_name@,
            decreases n - j,
        {
            if !self.items[j].is_well_formed() {
                return false;
            }
            let mut i: usize = 0;
            while i < j
                invariant
                    n == self.items@.len(),
                    i <= j < n,
                    forall|a: int|
                        0 <= a < i ==> self.items@[a].display_name@
                            != self.items@[j as int].display_name@,
                decreases j - i,
            {
                if self.items[i].display_name == self.items[j].display_name {
                    return false;
                }
                i = i + 1;
            }
            j = j + 1;
        }
        true
    }
}

} // verus!
