use zatzoubot::display::formatnum;
use zatzoubot::gather::{distinct_kinds, material_matches, to_ascii_upper};
use zatzoubot::item::{Item, ItemInfo, Rarity, Requirements, Type};
use zatzoubot::territory::{color_from_hash, guild_color, territory_color, ColorError};

#[test]
fn signed_numbers() {
    assert_eq!(formatnum(0), "0");
    assert_eq!(formatnum(7), "+7");
    assert_eq!(formatnum(1234), "+1234");
    assert_eq!(formatnum(-50), "-50");
    assert_eq!(formatnum(i64::MIN), "-9223372036854775808");
    assert_eq!(formatnum(i64::MAX), "+9223372036854775807");
}

#[test]
fn rarity_colors() {
    let mut it = Item {
        display_name: "Thing".to_string(),
        tier: Rarity::Rare,
        powder_amount: 0,
        item_info: ItemInfo { item_type: Type::Wand },
        requirements: Requirements {
            level: None,
            strength: None,
            dexterity: None,
            intelligence: None,
            defence: None,
            agility: None,
        },
        damage_types: None,
        defense_types: None,
        attack_speed: None,
        statuses: vec![],
        wynn_builder_id: None,
    };
    assert_eq!(it.get_color(), 0xF752F7);
    it.tier = Rarity::SetItem;
    assert_eq!(it.get_color(), 0x289618);
    it.tier = Rarity::Mythic;
    assert_eq!(it.get_color(), 0xAA00AA);
}

#[test]
fn guild_colors_from_checksum() {
    assert_eq!(color_from_hash(0xCBF43926), (0xF4, 0x39, 0x26));
    assert_eq!(guild_color("123456789"), (0xF4, 0x39, 0x26));
    assert_eq!(territory_color(&None, "123456789"), Ok((0xF4, 0x39, 0x26)));
    assert_eq!(territory_color(&Some(String::new()), "123456789"), Ok((0xF4, 0x39, 0x26)));
}

#[test]
fn guild_colors_from_text() {
    assert_eq!(territory_color(&Some("#1a2B3c".to_string()), "x"), Ok((0x1a, 0x2b, 0x3c)));
    assert_eq!(territory_color(&Some("#ffeeddcc".to_string()), "x"), Ok((0xff, 0xee, 0xdd)));
    assert_eq!(territory_color(&Some("#12345".to_string()), "x"), Err(ColorError::InvalidHex));
    assert_eq!(territory_color(&Some("#12zz56".to_string()), "x"), Err(ColorError::InvalidHex));
    assert_eq!(territory_color(&Some("#1234".to_string()), "x"), Err(ColorError::TooShort));
}

#[test]
fn material_queries() {
    assert_eq!(to_ascii_upper("Oak wood é"), "OAK WOOD é");
    assert!(material_matches("OAK", "oak"));
    assert!(material_matches("DARK OAK", "oak"));
    assert!(material_matches("OAK", "oak logs"));
    assert!(!material_matches("BIRCH", "oak"));
    assert!(material_matches("GOLD", ""));
}

#[test]
fn resource_kinds_once_each() {
    let kinds: Vec<String> =
        ["OAK", "GOLD", "OAK", "WHEAT", "GOLD"].iter().map(|s| s.to_string()).collect();
    assert_eq!(distinct_kinds(&kinds), vec!["OAK", "GOLD", "WHEAT"]);
    assert!(distinct_kinds(&vec![]).is_empty());
}
