use zatzoubot::codec::{best_string_for, decode, encode_best, DecodeError};
use zatzoubot::grammar::{END_CHAR, OFFSET, SEPARATOR, START_CHAR};
use zatzoubot::identification::{Identification, StatusId, StatusType};
use zatzoubot::item::{
    id_groups, IdentificationOrder, Item, ItemInfo, ItemList, Rarity, Requirements, Type,
};
use zatzoubot::powder::{decode_powders, Powders};
use zatzoubot::roll::{best_roll, max_id, min_id, quality, value_from_roll, RollQuality};

fn stat(base: i32, fixed: bool) -> StatusId {
    StatusId { status_type: StatusType::Integer, is_fixed: fixed, base_value: base }
}

fn item(name: &str, powders: u8, statuses: Vec<(Identification, StatusId)>) -> Item {
    Item {
        display_name: name.to_string(),
        tier: Rarity::Rare,
        powder_amount: powders,
        item_info: ItemInfo { item_type: Type::Ring },
        requirements: Requirements {
            level: Some(10),
            strength: None,
            dexterity: None,
            intelligence: None,
            defence: None,
            agility: None,
        },
        damage_types: None,
        defense_types: None,
        attack_speed: None,
        statuses,
        wynn_builder_id: None,
    }
}

fn order(inverted: Vec<Identification>) -> IdentificationOrder {
    IdentificationOrder {
        order: vec![
            (Identification::RawStrength, 1),
            (Identification::RawDexterity, 2),
            (Identification::AttackSpeed, 6),
            (Identification::SpellDamage, 8),
            (Identification::RawHealth, 12),
            (Identification::ManaRegen, 14),
            (Identification::Raw1stSpellCost, 43),
        ],
        groups: id_groups(),
        inverted,
    }
}

fn db(items: Vec<Item>, inverted: Vec<Identification>) -> ItemList {
    ItemList { items, identification_order: order(inverted) }
}

fn data(p: i32) -> char {
    char::from_u32((OFFSET + p) as u32).unwrap()
}

/// An identification string with the given roll payloads and optional powder
/// payloads; the reroll count goes last.
fn id_string(name: &str, rolls: &[i32], powders: Option<&[i32]>, rerolls: i32) -> String {
    let mut s = String::new();
    s.push(START_CHAR);
    s.push_str(name);
    s.push(SEPARATOR);
    for r in rolls {
        s.push(data(*r));
    }
    match powders {
        None => s.push(data(rerolls)),
        Some(ps) => {
            s.push(SEPARATOR);
            for p in ps {
                s.push(data(*p));
            }
            s.push(data(rerolls));
        }
    }
    s.push(END_CHAR);
    s
}

#[test]
fn base_fifty_roll_fifteen() {
    assert_eq!(min_id(50, false), 15);
    assert_eq!(max_id(50, false), 65);
    assert_eq!(value_from_roll(15, 50, false), 30);
    let q = quality(30, 50, false, false);
    assert_eq!(q, RollQuality { num: 15, den: 50 });
    assert_eq!(100 * q.num / q.den, 30);

    let list = db(vec![item("Ring", 0, vec![(Identification::RawStrength, stat(50, false))])], vec![]);
    let b = decode(&id_string("Ring", &[15 * 4], None, 0), &list).unwrap();
    assert_eq!(b.lines.len(), 1);
    assert_eq!(b.lines[0].value, 30);
    assert_eq!(b.lines[0].quality, Some(RollQuality { num: 15, den: 50 }));
}

#[test]
fn wide_base_two_hundred_roll_forty() {
    assert_eq!(value_from_roll(40, 200, false), 140);
    let list = db(vec![item("Wide", 0, vec![(Identification::RawHealth, stat(200, false))])], vec![]);
    let b = decode(&id_string("Wide", &[40 * 4 + 3], None, 0), &list).unwrap();
    assert_eq!(b.lines[0].value, 140);
    assert_eq!(b.lines[0].quality, Some(RollQuality { num: 80, den: 200 }));
}

#[test]
fn wide_rounding_goes_half_away_from_zero() {
    // (r + 30) * b / 100 = 0.5 * 101 = 50.5 rounds to 51; for -101 to -51.
    assert_eq!(value_from_roll(20, 101, false), 51);
    assert_eq!(value_from_roll(20, -101, false), -51);
}

#[test]
fn negative_base_range() {
    // floor(-20 * 0.7) = -14, floor(-20 * 1.3) = -26
    assert_eq!(max_id(-20, false), -14);
    assert_eq!(min_id(-20, false), -26);
    assert_eq!(max_id(-7, false), -5);
    assert_eq!(min_id(-7, false), -10);
    assert_eq!(quality(-14, -20, false, false), RollQuality { num: 12, den: 12 });
    assert_eq!(quality(-26, -20, false, false), RollQuality { num: 0, den: 12 });
}

#[test]
fn extremes_give_zero_and_hundred_percent() {
    for base in [2, 7, 50, 99, 100, 101, 1000] {
        let lo = min_id(base, false);
        let hi = max_id(base, false);
        assert!(lo <= hi);
        let q_hi = quality(hi, base, false, false);
        let q_lo = quality(lo, base, false, false);
        assert_eq!(q_hi.num, q_hi.den);
        assert_eq!(q_lo.num, 0);
        let inv_hi = quality(hi, base, false, true);
        assert_eq!(inv_hi.num, 0);
    }
    assert_eq!(min_id(1, false), 1);
    assert_eq!(max_id(1, false), 1);
}

#[test]
fn fixed_and_unit_stats_show_no_quality() {
    let list = db(
        vec![item(
            "Mixed",
            0,
            vec![
                (Identification::RawStrength, stat(7, true)),
                (Identification::RawDexterity, stat(1, false)),
                (Identification::AttackSpeed, stat(-1, false)),
                (Identification::SpellDamage, stat(20, false)),
            ],
        )],
        vec![],
    );
    // three variable stats read three roll characters; the fixed one reads none
    let b = decode(&id_string("Mixed", &[0, 4, 8], None, 0), &list).unwrap();
    assert_eq!(b.lines.len(), 4);
    assert_eq!(b.lines[0].value, 7);
    assert_eq!(b.lines[0].quality, None);
    assert_eq!(b.lines[1].value, 1);
    assert_eq!(b.lines[1].quality, None);
    assert_eq!(b.lines[2].value, 0);
    assert_eq!(b.lines[2].quality, None);
    // base 20: min 6, max 26, roll 2
    assert_eq!(b.lines[3].value, 8);
    assert_eq!(b.lines[3].quality, Some(RollQuality { num: 2, den: 20 }));
}

#[test]
fn one_roll_short_is_truncated() {
    let list = db(
        vec![item(
            "Three",
            0,
            vec![
                (Identification::RawStrength, stat(10, false)),
                (Identification::RawDexterity, stat(10, false)),
                (Identification::SpellDamage, stat(10, false)),
            ],
        )],
        vec![],
    );
    // two characters: one roll and the reroll count
    let r = decode(&id_string("Three", &[4], None, 0), &list);
    assert_eq!(r.err(), Some(DecodeError::TruncatedIdSegment));
    // with a powder segment the id segment holds only rolls: two are still short
    let r = decode(&id_string("Three", &[4, 4], Some(&[]), 0), &list);
    assert_eq!(r.err(), Some(DecodeError::TruncatedIdSegment));
    let r = decode(&id_string("Three", &[4, 4, 4], None, 0), &list);
    assert!(r.is_ok());
}

#[test]
fn powder_payload_eight() {
    assert_eq!(decode_powders(&vec![8]), vec![Powders::Earth, Powders::Thunder]);
    let list = db(vec![item("Slots", 2, vec![(Identification::RawStrength, stat(10, true))])], vec![]);
    let b = decode(&id_string("Slots", &[], Some(&[8]), 0), &list).unwrap();
    assert_eq!(b.powders, vec![Powders::Earth, Powders::Thunder]);
    assert_eq!(b.powder_slots, 2);
}

#[test]
fn powder_slots_keep_their_order() {
    // slot one: fire then air, (3 + 1) * 6 + (4 + 1) = 29; slot two: water, 3
    assert_eq!(decode_powders(&vec![29, 3]), vec![Powders::Fire, Powders::Air, Powders::Water]);
    // four stacked powders: earth, thunder, water, fire
    let packed = ((1 * 6 + 2) * 6 + 3) * 6 + 4;
    assert_eq!(
        decode_powders(&vec![packed]),
        vec![Powders::Earth, Powders::Thunder, Powders::Water, Powders::Fire]
    );
}

#[test]
fn powder_unpacking_stops_at_a_zero_digit() {
    assert_eq!(decode_powders(&vec![6]), vec![]);
    assert_eq!(decode_powders(&vec![0]), vec![]);
    assert_eq!(decode_powders(&vec![-7]), vec![]);
    // 6 * 6 + 2: the low digit 2 gives thunder, then the zero digit stops
    assert_eq!(decode_powders(&vec![38]), vec![Powders::Thunder]);
}

#[test]
fn powders_ignored_without_slots() {
    let list = db(vec![item("Bare", 0, vec![(Identification::RawStrength, stat(10, false))])], vec![]);
    let b = decode(&id_string("Bare", &[4], Some(&[8]), 3), &list).unwrap();
    assert!(b.powders.is_empty());
    assert_eq!(b.rerolls, 3);
}

#[test]
fn reroll_count_comes_from_last_segment() {
    let list = db(vec![item("Roll", 1, vec![(Identification::RawStrength, stat(10, false))])], vec![]);
    let b = decode(&id_string("Roll", &[4], None, 5), &list).unwrap();
    assert_eq!(b.rerolls, 5);
    let b = decode(&id_string("Roll", &[4], Some(&[1]), 9), &list).unwrap();
    assert_eq!(b.rerolls, 9);
    assert_eq!(b.powders, vec![Powders::Earth]);
}

#[test]
fn malformed_strings() {
    let list = db(vec![item("Ring", 0, vec![])], vec![]);
    assert_eq!(decode("", &list).err(), Some(DecodeError::MalformedString));
    assert_eq!(decode("Ring", &list).err(), Some(DecodeError::MalformedString));
    let mut s = String::new();
    s.push(START_CHAR);
    s.push_str("Ring");
    s.push(SEPARATOR);
    s.push(END_CHAR);
    assert_eq!(decode(&s, &list).err(), Some(DecodeError::MalformedString));
    let mut s = String::new();
    s.push_str("Ring");
    s.push(SEPARATOR);
    s.push(data(0));
    s.push(SEPARATOR);
    s.push(SEPARATOR);
    s.push(data(0));
    assert_eq!(decode(&s, &list).err(), Some(DecodeError::MalformedString));
    // an empty id segment is fine when a powder segment holds the reroll count
    let mut s = String::new();
    s.push_str("Ring");
    s.push(SEPARATOR);
    s.push(SEPARATOR);
    s.push(data(2));
    assert_eq!(decode(&s, &list).unwrap().rerolls, 2);
}

#[test]
fn unknown_item() {
    let list = db(vec![item("Ring", 0, vec![])], vec![]);
    assert_eq!(decode(&id_string("ring", &[], None, 0), &list).err(), Some(DecodeError::ItemNotFound));
    assert_eq!(best_string_for("Nothing", &list).err(), Some(DecodeError::ItemNotFound));
    assert_eq!(best_string_for("", &list).err(), Some(DecodeError::MalformedString));
}

#[test]
fn stats_follow_ordinal_order_and_groups() {
    let list = db(
        vec![item(
            "Order",
            0,
            vec![
                (Identification::ManaRegen, stat(10, true)),
                (Identification::RawDexterity, stat(10, true)),
                (Identification::RawStrength, stat(10, true)),
                (Identification::RawHealth, stat(10, true)),
                (Identification::EarthDamage, stat(10, true)),
            ],
        )],
        vec![],
    );
    let b = decode(&id_string("Order", &[], None, 0), &list).unwrap();
    let ids: Vec<Identification> = b.lines.iter().map(|l| l.id).collect();
    assert_eq!(
        ids,
        vec![
            Identification::RawStrength,
            Identification::RawDexterity,
            Identification::RawHealth,
            Identification::ManaRegen,
        ]
    );
    let breaks: Vec<bool> = b.lines.iter().map(|l| l.group_break).collect();
    assert_eq!(breaks, vec![false, false, true, false]);
}

#[test]
fn inverted_stat_quality() {
    let list = db(
        vec![item("Cost", 0, vec![(Identification::Raw1stSpellCost, stat(-10, false))])],
        vec![Identification::Raw1stSpellCost],
    );
    // base -10: max -7, min -13; roll 0 gives -13, the worst value numerically
    let b = decode(&id_string("Cost", &[0], None, 0), &list).unwrap();
    assert_eq!(b.lines[0].value, -13);
    assert_eq!(b.lines[0].quality, Some(RollQuality { num: 6, den: 6 }));
}

#[test]
fn best_roll_round_trip() {
    let it = item(
        "Best",
        0,
        vec![
            (Identification::RawStrength, stat(50, false)),
            (Identification::RawDexterity, stat(10, true)),
            (Identification::SpellDamage, stat(-20, false)),
            (Identification::RawHealth, stat(1, false)),
        ],
    );
    let list = db(vec![it.clone()], vec![]);
    let s = encode_best(&it, &list.identification_order);
    let b = decode(&s, &list).unwrap();
    let values: Vec<i64> = b.lines.iter().map(|l| l.value).collect();
    assert_eq!(values, vec![65, 10, -14, 1]);
    assert_eq!(b.rerolls, 0);
}

#[test]
fn best_string_characters() {
    let it = item(
        "Best",
        0,
        vec![
            (Identification::RawStrength, stat(50, false)),
            (Identification::RawDexterity, stat(10, true)),
            (Identification::RawHealth, stat(200, false)),
            (Identification::Raw1stSpellCost, stat(-10, false)),
        ],
    );
    let list = db(vec![it.clone()], vec![Identification::Raw1stSpellCost]);
    let s = encode_best(&it, &list.identification_order);
    // 65 - 15 = 50; round(100 * 260 / 200 - 30) = 100; inverted gives 0
    let mut expected = String::new();
    expected.push(START_CHAR);
    expected.push_str("Best");
    expected.push(SEPARATOR);
    expected.push(data(50 * 4));
    expected.push(data(100 * 4));
    expected.push(data(0));
    expected.push(data(0));
    expected.push(END_CHAR);
    assert_eq!(s, expected);
    assert_eq!(best_string_for("Best", &list).unwrap(), expected);
    assert_eq!(best_string_for(&id_string("Best", &[1, 2], None, 4), &list).unwrap(), expected);
}

#[test]
fn best_roll_integers() {
    assert_eq!(best_roll(50, false, false), 50);
    assert_eq!(best_roll(200, false, false), 100);
    assert_eq!(best_roll(101, false, false), 100);
    assert_eq!(best_roll(-200, false, false), 40);
    // inverted: the roll whose value is the minimum, floor(-150 * 1.3) = -195
    assert_eq!(best_roll(-150, false, true), 100);
    // inverted: floor(200 * 0.3) = 60 is round((0 + 30) / 100 * 200)
    assert_eq!(best_roll(200, false, true), 0);
    assert_eq!(best_roll(-10, false, true), 0);
}

#[test]
fn wide_inverted_best_roll_decodes_to_the_minimum() {
    let it = item(
        "Big",
        0,
        vec![
            (Identification::RawHealth, stat(200, false)),
            (Identification::Raw1stSpellCost, stat(-150, false)),
        ],
    );
    let list = db(vec![it.clone()], vec![Identification::RawHealth, Identification::Raw1stSpellCost]);
    let s = encode_best(&it, &list.identification_order);
    let chars: Vec<char> = s.chars().collect();
    assert_eq!(chars[chars.len() - 4], data(0));
    assert_eq!(chars[chars.len() - 3], data(400));
    let b = decode(&s, &list).unwrap();
    assert_eq!(b.lines[0].value, 60);
    assert_eq!(b.lines[0].quality, Some(RollQuality { num: 200, den: 200 }));
    assert_eq!(b.lines[1].value, -195);
    assert_eq!(b.lines[1].quality, Some(RollQuality { num: 90, den: 90 }));
}

#[test]
fn database_well_formedness() {
    let good = db(
        vec![
            item("A", 0, vec![(Identification::RawStrength, stat(10, false))]),
            item("B", 0, vec![(Identification::RawDexterity, stat(10, true))]),
        ],
        vec![],
    );
    assert!(good.is_well_formed());

    let same_name = db(vec![item("A", 0, vec![]), item("A", 0, vec![])], vec![]);
    assert!(!same_name.is_well_formed());

    let twice = item(
        "C",
        0,
        vec![(Identification::RawStrength, stat(1, false)), (Identification::RawStrength, stat(2, false))],
    );
    assert!(!twice.is_well_formed());
    assert!(!db(vec![twice], vec![]).is_well_formed());

    let mut shared_ordinal = order(vec![]);
    shared_ordinal.order.push((Identification::EarthDamage, 2));
    assert!(!shared_ordinal.is_well_formed());
    let mut listed_twice = order(vec![]);
    listed_twice.order.push((Identification::RawStrength, 99));
    assert!(!listed_twice.is_well_formed());
    assert!(order(vec![]).is_well_formed());
}
