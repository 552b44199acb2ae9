use zatzoubot::config::{default_cmd_prefix, default_false, default_true, BotConfig, CmdConfig};
use zatzoubot::identification::{Identification, StatusType};
use zatzoubot::item::{
    id_groups, AttackSpeed, IdGroup, Item, ItemInfo, Rarity, Requirements, Type,
};
use zatzoubot::powder::Powders;
use zatzoubot::servers::{parse_timestamp, sort_by_start, sp_regen_seconds, ParsedServer};

fn plain_item(tier: Rarity, kind: Type, speed: Option<AttackSpeed>) -> Item {
    Item {
        display_name: "Thing".to_string(),
        tier,
        powder_amount: 0,
        item_info: ItemInfo { item_type: kind },
        requirements: Requirements {
            level: None,
            strength: None,
            dexterity: None,
            intelligence: None,
            defence: None,
            agility: None,
        },
        damage_types: None,
        defense_types: None,
        attack_speed: speed,
        statuses: vec![],
        wynn_builder_id: None,
    }
}

#[test]
fn identification_names() {
    assert_eq!(Identification::RawStrength.name(), "Strength");
    assert_eq!(Identification::SpellDamage.name(), "Spell Damage");
    assert_eq!(Identification::RawNeutralSpellDamage.name(), "Spell Damage");
    assert_eq!(Identification::EmeraldStealing.name(), "Stealing");
    assert_eq!(Identification::GatherXpBonus.name(), "Gather XP Bonus");
    assert_eq!(Identification::SpellCost4.name(), "4th Spell Cost");
}

#[test]
fn status_type_suffixes() {
    assert_eq!(StatusType::Percentage.suffix(), "%");
    assert_eq!(StatusType::Integer.suffix(), "");
    assert_eq!(StatusType::Tier.suffix(), "");
    assert_eq!(StatusType::FourSeconds.suffix(), "/4s");
    assert_eq!(StatusType::ThreeSeconds.suffix(), "/3s");
}

#[test]
fn item_display_names() {
    let it = plain_item(Rarity::Legendary, Type::Chestplate, None);
    assert_eq!(it.get_rarity(), "Legendary");
    assert_eq!(it.get_type(), "Chestplate");
    assert_eq!(it.get_speed(), None);
    let it = plain_item(Rarity::SetItem, Type::Relik, Some(AttackSpeed::Slow));
    assert_eq!(it.get_rarity(), "Set");
    assert_eq!(it.get_type(), "Relik");
    assert_eq!(it.get_speed(), Some("Slow Attack".to_string()));
    let it = plain_item(Rarity::Normal, Type::Bow, Some(AttackSpeed::SuperFast));
    assert_eq!(it.get_speed(), Some("Super Fast".to_string()));
}

#[test]
fn powder_indices() {
    assert_eq!(Powders::from_i32(0), Powders::Earth);
    assert_eq!(Powders::from_i32(1), Powders::Thunder);
    assert_eq!(Powders::from_i32(2), Powders::Water);
    assert_eq!(Powders::from_i32(3), Powders::Fire);
    assert_eq!(Powders::from_i32(4), Powders::Air);
    assert_eq!(Powders::from_i32(-1), Powders::Air);
    assert_eq!(Powders::from_i32(9), Powders::Air);
}

#[test]
fn standard_groups() {
    let g = id_groups();
    assert_eq!(g.len(), 9);
    assert_eq!(g[0], IdGroup { first: 1, last: 5 });
    assert_eq!(g[8], IdGroup { first: 43, last: 50 });
    assert!(g[1].contains(6) && g[1].contains(11) && !g[1].contains(12));
}

#[test]
fn config_defaults() {
    assert!(default_true());
    assert!(!default_false());
    assert_eq!(default_cmd_prefix(), ".");
    let c = CmdConfig::default();
    assert!(c.register_slash_cmds);
    assert!(!c.enable_prefix_cmds);
    assert_eq!(c.cmd_prefix, ".");
    let b = BotConfig { token: Some("SECRET-REDACTED".to_string()), name: "Bot".to_string() };
    assert_eq!(b.get_token(), "SECRET-REDACTED");
}

#[test]
fn server_uptime() {
    // started 2 h 3 min 4 s before now
    let now: i64 = 1_700_000_000;
    let started = (now - (2 * 3600 + 3 * 60 + 4)) * 1000 + 999;
    assert_eq!(parse_timestamp(started, now), (2, 3, 4));
    assert_eq!(parse_timestamp(now * 1000, now), (0, 0, 0));
}

#[test]
fn soul_point_regen() {
    let now: i64 = 1_700_000_000;
    // the cycle counts from two minutes after the start: here that is now
    assert_eq!(sp_regen_seconds(now * 1000 - 120, now), 1200);
    assert_eq!(sp_regen_seconds((now - 300) * 1000 - 120, now), 900);
    assert_eq!(sp_regen_seconds((now - 1500) * 1000 - 120, now), 900);
}

#[test]
fn servers_by_start() {
    let mk = |name: &str, started: i64| ParsedServer {
        name: name.to_string(),
        started,
        players: vec![name.to_string()],
    };
    let sorted = sort_by_start(vec![mk("WC3", 30), mk("WC1", 10), mk("WC4", -5), mk("WC2", 20)]);
    let names: Vec<&str> = sorted.iter().map(|s| s.name.as_str()).collect();
    assert_eq!(names, vec!["WC4", "WC1", "WC2", "WC3"]);
    assert_eq!(sorted[0].players, vec!["WC4".to_string()]);
    assert!(sort_by_start(vec![]).is_empty());
}
