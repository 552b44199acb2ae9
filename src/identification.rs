use vstd::prelude::*;

verus! {

/// Every stat kind that an item roll can affect.
///
/// Several kinds share a display name (flat and percentage variants of the
/// same stat); they stay distinct kinds with their own ordinals.
#[derive(Debug, PartialEq, Eq, Structural, Clone, Copy)]
pub enum Identification {
    RawStrength,
    RawDexterity,
    RawIntelligence,
    RawDefence,
    RawAgility,
    AttackSpeed,
    RawMainAttackNeutralDamage,
    MainAttackDamage,
    RawNeutralSpellDamage,
    RawSpellDamage,
    SpellDamage,
    RawHealth,
    RawHealthRegen,
    HealthRegen,
    LifeSteal,
    ManaRegen,
    ManaSteal,
    EarthDamage,
    ThunderDamage,
    WaterDamage,
    FireDamage,
    AirDamage,
    EarthDefence,
    ThunderDefence,
    WaterDefence,
    FireDefence,
    AirDefence,
    Exploding,
    Poison,
    Thorns,
    Reflection,
    WalkSpeed,
    Sprint,
    SprintRegen,
    RawJumpHeight,
    SoulPointRegen,
    LootBonus,
    LootQuality,
    EmeraldStealing,
    XpBonus,
    GatherXpBonus,
    GatherSpeed,
    Raw1stSpellCost,
    SpellCost1,
    Raw2ndSpellCost,
    SpellCost2,
    Raw3rdSpellCost,
    SpellCost3,
    Raw4thSpellCost,
    SpellCost4,
}

impl Identification {
    /// The display name of each kind.
    pub open spec fn name_spec(self) -> Seq<char> {
        match self {
            Identification::RawStrength => "Strength"@,
            Identification::RawDexterity => "Dexterity"@,
            Identification::RawIntelligence => "Intelligence"@,
            Identification::RawDefence => "Defence"@,
            Identification::RawAgility => "Agility"@,
            Identification::AttackSpeed => "Attack Speed"@,
            Identification::RawMainAttackNeutralDamage => "Main Attack Neutral Damage"@,
            Identification::MainAttackDamage => "Main Attack Damage"@,
            Identification::RawNeutralSpellDamage => "Spell Damage"@,
            Identification::RawSpellDamage => "Spell Damage"@,
            Identification::SpellDamage => "Spell Damage"@,
            Identification::RawHealth => "Health"@,
            Identification::RawHealthRegen => "Health Regen"@,
            Identification::HealthRegen => "Health Regen"@,
            Identification::LifeSteal => "Life Steal"@,
            Identification::ManaRegen => "Mana Regen"@,
            Identification::ManaSteal => "Mana Steal"@,
            Identification::EarthDamage => "Earth Damage"@,
            Identification::ThunderDamage => "Thunder Damage"@,
            Identification::WaterDamage => "Water Damage"@,
            Identification::FireDamage => "Fire Damage"@,
            Identification::AirDamage => "Air Damage"@,
            Identification::EarthDefence => "Earth Defence"@,
            Identification::ThunderDefence => "Thunder Defence"@,
            Identification::WaterDefence => "Water Defence"@,
            Identification::FireDefence => "Fire Defence"@,
            Identification::AirDefence => "Air Defence"@,
            Identification::Exploding => "Exploding"@,
            Identification::Poison => "Poison"@,
            Identification::Thorns => "Thorns"@,
            Identification::Reflection => "Reflection"@,
            Identification::WalkSpeed => "Walk Speed"@,
            Identification::Sprint => "Sprint"@,
            Identification::SprintRegen => "Sprint Regen"@,
            Identification::RawJumpHeight => "Jump Height"@,
            Identification::SoulPointRegen => "Soul Point Regen"@,
            Identification::LootBonus => "Loot Bonus"@,
            Identification::LootQuality => "Loot Quality"@,
            Identification::EmeraldStealing => "Stealing"@,
            Identification::XpBonus => "XP Bonus"@,
            Identification::GatherXpBonus => "Gather XP Bonus"@,
            Identification::GatherSpeed => "Gather Speed"@,
            Identification::Raw1stSpellCost => "1st Spell Cost"@,
            Identification::SpellCost1 => "1st Spell Cost"@,
            Identification::Raw2ndSpellCost => "2nd Spell Cost"@,
            Identification::SpellCost2 => "2nd Spell Cost"@,
            Identification::Raw3rdSpellCost => "3rd Spell Cost"@,
            Identification::SpellCost3 => "3rd Spell Cost"@,
            Identification::Raw4thSpellCost => "4th Spell Cost"@,
            Identification::SpellCost4 => "4th Spell Cost"@,
        }
    }

    /// The canonical display name of the stat kind.
    pub fn name(&self) -> (r: &'static str)
        ensures
            r@ == self.name_spec(),
    {
        match self {
            Identification::RawStrength => "Strength",
            Identification::RawDexterity => "Dexterity",
            Identification::RawIntelligence => "Intelligence",
            Identification::RawDefence => "Defence",
            Identification::RawAgility => "Agility",
            Identification::AttackSpeed => "Attack Speed",
            Identification::RawMainAttackNeutralDamage => "Main Attack Neutral Damage",
            Identification::MainAttackDamage => "Main Attack Damage",
            Identification::RawNeutralSpellDamage => "Spell Damage",
            Identification::RawSpellDamage => "Spell Damage",
            Identification::SpellDamage => "Spell Damage",
            Identification::RawHealth => "Health",
            Identification::RawHealthRegen => "Health Regen",
            Identification::HealthRegen => "Health Regen",
            Identification::LifeSteal => "Life Steal",
            Identification::ManaRegen => "Mana Regen",
            Identification::ManaSteal => "Mana Steal",
            Identification::EarthDamage => "Earth Damage",
            Identification::ThunderDamage => "Thunder Damage",
            Identification::WaterDamage => "Water Damage",
            Identification::FireDamage => "Fire Damage",
            Identification::AirDamage => "Air Damage",
            Identification::EarthDefence => "Earth Defence",
            Identification::ThunderDefence => "Thunder Defence",
            Identification::WaterDefence => "Water Defence",
            Identification::FireDefence => "Fire Defence",
            Identification::AirDefence => "Air Defence",
            Identification::Exploding => "Exploding",
            Identification::Poison => "Poison",
            Identification::Thorns => "Thorns",
            Identification::Reflection => "Reflection",
            Identification::WalkSpeed => "Walk Speed",
            Identification::Sprint => "Sprint",
            Identification::SprintRegen => "Sprint Regen",
            Identification::RawJumpHeight => "Jump Height",
            Identification::SoulPointRegen => "Soul Point Regen",
            Identification::LootBonus => "Loot Bonus",
            Identification::LootQuality => "Loot Quality",
            Identification::EmeraldStealing => "Stealing",
            Identification::XpBonus => "XP Bonus",
            Identification::GatherXpBonus => "Gather XP Bonus",
            Identification::GatherSpeed => "Gather Speed",
            Identification::Raw1stSpellCost => "1st Spell Cost",
            Identification::SpellCost1 => "1st Spell Cost",
            Identification::Raw2ndSpellCost => "2nd Spell Cost",
            Identification::SpellCost2 => "2nd Spell Cost",
            Identification::Raw3rdSpellCost => "3rd Spell Cost",
            Identification::SpellCost3 => "3rd Spell Cost",
            Identification::Raw4thSpellCost => "4th Spell Cost",
            Identification::SpellCost4 => "4th Spell Cost",
        }
    }
}

/// How a stat's value is shown: its unit.
#[derive(Debug, PartialEq, Eq, Structural, Clone, Copy)]
pub enum StatusType {
    Percentage,
    Integer,
    FourSeconds,
    ThreeSeconds,
    Tier,
}

impl StatusType {
    /// The unit written after a value of this type.
    pub open spec fn suffix_spec(self) -> Seq<char> {
        match self {
            StatusType::Percentage => "%"@,
            StatusType::Integer => ""@,
            StatusType::FourSeconds => "/4s"@,
            StatusType::ThreeSeconds => "/3s"@,
            StatusType::Tier => ""@,
        }
    }

    /// The unit written after a value of this type.
    pub fn suffix(&self) -> (r: &'static str)
        ensures
            r@ == self.suffix_spec(),
    {
        match self {
            StatusType::Percentage => "%",
            StatusType::Integer => "",
            StatusType::FourSeconds => "/4s",
            StatusType::ThreeSeconds => "/3s",
            StatusType::Tier => "",
        }
    }
}

/// One stat of one item: its unit, whether it is fixed, and the reference
/// value that the rolls are measured against (negative for a malus).
#[derive(Debug, PartialEq, Eq, Structural, Clone, Copy)]
pub struct StatusId {
    pub status_type: StatusType,
    pub is_fixed: bool,
    pub base_value: i32,
}

} // verus!
