use world::game::condition::ConditionRegeneration;
use world::game::gm::{command_words, join, parse_pos, tokenize_args, GmVerb, ALL_VERBS};
use world::game::monster::{health_percent_of, name_hash_looktype};
use world::game::state::RaceType;
use world::game::step_time;
use world::map::EquipSlot;
use world::outfit_catalog::{catalog_for_sex, FEMALE, MALE};
use world::text::{
    capped_bytes, eq_ignore_ascii_case, is_whitespace, parse_signed, parse_unsigned, to_decimal,
};
use world::wire::{Packet, Session, Stats};
use world::{Direction, Position};

// ---------------------------------------------------------------------------
// Positions and directions
// ---------------------------------------------------------------------------

#[test]
fn direction_wire_bytes_match_tfs() {
    assert_eq!(Direction::North.to_byte(), 0);
    assert_eq!(Direction::East.to_byte(), 1);
    assert_eq!(Direction::South.to_byte(), 2);
    assert_eq!(Direction::West.to_byte(), 3);
    assert_eq!(Direction::SouthWest.to_byte(), 4);
    assert_eq!(Direction::SouthEast.to_byte(), 5);
    assert_eq!(Direction::NorthWest.to_byte(), 6);
    assert_eq!(Direction::NorthEast.to_byte(), 7);
}

#[test]
fn direction_deltas() {
    assert_eq!(Direction::North.delta(), (0, -1));
    assert_eq!(Direction::East.delta(), (1, 0));
    assert_eq!(Direction::South.delta(), (0, 1));
    assert_eq!(Direction::West.delta(), (-1, 0));
    assert_eq!(Direction::NorthEast.delta(), (1, -1));
    assert_eq!(Direction::SouthEast.delta(), (1, 1));
    assert_eq!(Direction::SouthWest.delta(), (-1, 1));
    assert_eq!(Direction::NorthWest.delta(), (-1, -1));
}

#[test]
fn position_offset_stays_in_bounds() {
    let p = Position::new(100, 100, 7);
    assert_eq!(p.offset(1, -1), Some(Position::new(101, 99, 7)));
    assert_eq!(Position::new(0, 0, 7).offset(-1, 0), None);
    assert_eq!(Position::new(u16::MAX, 0, 7).offset(1, 0), None);
    assert_eq!(Position::new(1, 0, 7).offset(i32::MAX, 0), None);
    assert_eq!(Position::new(0, 1, 7).offset(0, i32::MIN), None);
}

#[test]
fn position_offset_z_stays_in_bounds() {
    let p = Position::new(100, 100, 7);
    assert_eq!(p.offset_z(1), Some(Position::new(100, 100, 8)));
    assert_eq!(p.offset_z(-8), None);
    assert_eq!(Position::new(0, 0, 255).offset_z(1), None);
    assert_eq!(Position::new(0, 0, 255).offset_z(i32::MAX), None);
}

#[test]
fn a_step_and_back_ends_where_it_began() {
    let p = Position::new(100, 100, 7);
    for d in [Direction::North, Direction::SouthEast, Direction::West] {
        let (dx, dy) = d.delta();
        assert_eq!(p.offset(dx, dy).unwrap().offset(-dx, -dy), Some(p));
    }
}

// ---------------------------------------------------------------------------
// Text
// ---------------------------------------------------------------------------

#[test]
fn decimals_are_written_and_read() {
    assert_eq!(to_decimal(0), "0");
    assert_eq!(to_decimal(1050), "1050");
    assert_eq!(to_decimal(u64::MAX), "18446744073709551615");
    assert_eq!(parse_unsigned("1050", 65535), Some(1050));
    assert_eq!(parse_unsigned("+7", 255), Some(7));
    assert_eq!(parse_unsigned("65536", 65535), None);
    assert_eq!(parse_unsigned("", 65535), None);
    assert_eq!(parse_unsigned("-1", 65535), None);
    assert_eq!(parse_unsigned("1x", 65535), None);
    for n in [0u64, 9, 10, 65535, u64::MAX] {
        assert_eq!(parse_unsigned(&to_decimal(n), u64::MAX), Some(n));
    }
    assert_eq!(parse_signed("-50", 32767), Some(-50));
    assert_eq!(parse_signed("50", 32767), Some(50));
    assert_eq!(parse_signed("-", 32767), None);
}

#[test]
fn names_compare_without_case() {
    assert!(eq_ignore_ascii_case("God Diego", "gOD dIEGO"));
    assert!(!eq_ignore_ascii_case("God", "Got"));
    assert!(!eq_ignore_ascii_case("\u{c9}", "\u{e9}"));
}

#[test]
fn whitespace_is_told() {
    assert!(is_whitespace(' '));
    assert!(is_whitespace('\t'));
    assert!(is_whitespace('\u{3000}'));
    assert!(!is_whitespace('a'));
    assert!(!is_whitespace('\u{200b}'));
}

#[test]
fn messages_are_cut_at_255_bytes() {
    assert_eq!(capped_bytes("short"), b"short".to_vec());
    assert_eq!(capped_bytes(&"x".repeat(300)), vec![b'x'; 255]);
    assert_eq!(capped_bytes(&"x".repeat(255)).len(), 255);
}

// ---------------------------------------------------------------------------
// Sessions
// ---------------------------------------------------------------------------

#[test]
fn a_full_session_refuses() {
    let mut s = Session::with_capacity(1);
    assert!(s.try_send(Packet::DeathWindow));
    assert!(!s.try_send(Packet::CloseContainer { cid: 1 }));
    assert_eq!(s.drain(), vec![Packet::DeathWindow]);
    assert!(s.try_send(Packet::CloseContainer { cid: 1 }));
    s.close();
    assert!(!s.try_send(Packet::DeathWindow));
}

#[test]
fn stats_keep_their_low_bits() {
    let s = Stats::new(70000, 150, 220);
    assert_eq!((s.health, s.max_health, s.base_speed), (4464, 150, 220));
}

// ---------------------------------------------------------------------------
// Conditions, races, looks and steps
// ---------------------------------------------------------------------------

#[test]
fn tick_heals() {
    let mut c = ConditionRegeneration::new(0, 60000, 1, 6000, 100);
    assert_eq!(c.execute_tick(6000), 1);
}

#[test]
fn cap_stops() {
    let mut c = ConditionRegeneration::new(0, 60000, 1, 6000, 2);
    c.execute_tick(6000);
    c.execute_tick(12000);
    assert_eq!(c.execute_tick(18000), 0);
}

#[test]
fn conditions_last_and_are_extended() {
    let mut c = ConditionRegeneration::new(1000, 5000, 1, 1000, 100);
    assert!(!c.is_expired(5999));
    assert!(c.is_expired(6000));
    assert_eq!(c.remaining_ms(2000), 4000);
    assert_eq!(c.remaining_ms(7000), 0);
    c.extend(3000, 2000);
    assert_eq!(c.remaining_ms(2000), 7000);
    // Nothing before the interval has passed.
    assert_eq!(c.execute_tick(1500), 0);
}

#[test]
fn race_type_blood_maps_to_fluid_5() {
    assert_eq!(RaceType::Blood.fluid_subtype(), Some(5));
}

#[test]
fn race_type_venom_maps_to_fluid_6() {
    assert_eq!(RaceType::Venom.fluid_subtype(), Some(6));
}

#[test]
fn race_type_undead_does_not_splash() {
    assert_eq!(RaceType::Undead.fluid_subtype(), None);
}

#[test]
fn race_type_fire_does_not_splash() {
    assert_eq!(RaceType::Fire.fluid_subtype(), None);
}

#[test]
fn race_type_energy_does_not_splash() {
    assert_eq!(RaceType::Energy.fluid_subtype(), None);
}

#[test]
fn health_percent_rounds_down() {
    assert_eq!(health_percent_of(150, 150), 100);
    assert_eq!(health_percent_of(149, 150), 99);
    assert_eq!(health_percent_of(0, 150), 0);
}

#[test]
fn nameless_looks_come_from_the_name() {
    assert_eq!(name_hash_looktype("rat"), 377);
    assert_ne!(name_hash_looktype("rat"), name_hash_looktype("bat"));
}

#[test]
fn faster_creatures_step_sooner() {
    assert_eq!(step_time(220), 454);
    assert!(step_time(440) < step_time(220));
    assert!(step_time(220) < step_time(110));
}

// ---------------------------------------------------------------------------
// Outfits
// ---------------------------------------------------------------------------

#[test]
fn female_catalog_has_55_entries() {
    assert_eq!(FEMALE.len(), 55, "female catalog must mirror the 55 type=0 entries in outfits.xml");
}

#[test]
fn male_catalog_has_55_entries() {
    assert_eq!(MALE.len(), 55, "male catalog must mirror the 55 type=1 entries in outfits.xml");
}

#[test]
fn female_catalog_first_entry_is_136_citizen() {
    assert_eq!(FEMALE[0], (136, "Citizen"), "female Citizen is look_type 136");
}

#[test]
fn male_catalog_first_entry_is_128_citizen() {
    assert_eq!(MALE[0], (128, "Citizen"), "male Citizen is look_type 128");
}

#[test]
fn female_catalog_last_entry_is_900_lupine_warden() {
    assert_eq!(FEMALE[54], (900, "Lupine Warden"));
}

#[test]
fn male_catalog_last_entry_is_899_lupine_warden() {
    assert_eq!(MALE[54], (899, "Lupine Warden"));
}

#[test]
fn catalog_for_sex_0_returns_female() {
    let cat = catalog_for_sex(0);
    assert_eq!(cat.len(), 55);
    assert_eq!(cat[0].0, 136, "sex=0 (female) first look_type must be 136");
}

#[test]
fn catalog_for_sex_1_returns_male() {
    let cat = catalog_for_sex(1);
    assert_eq!(cat.len(), 55);
    assert_eq!(cat[0].0, 128, "sex=1 (male) first look_type must be 128");
}

#[test]
fn catalog_for_sex_female_does_not_contain_128() {
    let cat = catalog_for_sex(0);
    assert!(
        !cat.iter().any(|&(lt, _)| lt == 128),
        "female catalog must not contain male Citizen look_type 128"
    );
}

#[test]
fn catalog_for_sex_male_does_not_contain_136() {
    let cat = catalog_for_sex(1);
    assert!(
        !cat.iter().any(|&(lt, _)| lt == 136),
        "male catalog must not contain female Citizen look_type 136"
    );
}

// ---------------------------------------------------------------------------
// Equipment slots
// ---------------------------------------------------------------------------

#[test]
fn equip_slot_mapping_and_admits() {
    assert_eq!(EquipSlot::from_xml("head", ""), Some(EquipSlot::Head));
    assert_eq!(EquipSlot::from_xml("body", ""), Some(EquipSlot::Armor));
    assert_eq!(EquipSlot::from_xml("", "sword"), Some(EquipSlot::Hand));
    assert_eq!(EquipSlot::from_xml("", "shield"), Some(EquipSlot::Hand));
    assert_eq!(EquipSlot::from_xml("two-handed", ""), Some(EquipSlot::Hand));
    assert_eq!(EquipSlot::from_xml("", "ammunition"), Some(EquipSlot::Ammo));
    assert_eq!(EquipSlot::from_xml("ammo", ""), Some(EquipSlot::Ammo));
    assert_eq!(EquipSlot::from_xml("", ""), None);
    assert!(EquipSlot::Head.admits(1) && !EquipSlot::Head.admits(2));
    assert!(EquipSlot::Hand.admits(5) && EquipSlot::Hand.admits(6) && !EquipSlot::Hand.admits(4));
    assert!(EquipSlot::Ammo.admits(10) && !EquipSlot::Ammo.admits(1));
}

// ---------------------------------------------------------------------------
// Gamemaster commands
// ---------------------------------------------------------------------------

fn strings(words: &[&str]) -> Vec<String> {
    words.iter().map(|w| w.to_string()).collect()
}

#[test]
fn tokenize_args_groups_quoted_segments() {
    assert_eq!(tokenize_args("crystal coin 100"), ["crystal", "coin", "100"]);
    assert_eq!(tokenize_args("\"Gold Coin\" 100"), ["Gold Coin", "100"]);
    assert_eq!(tokenize_args("   spaced   out   "), ["spaced", "out"]);
    assert_eq!(tokenize_args("\"unterminated"), ["unterminated"]); // quote to end of input
    assert!(tokenize_args("").is_empty());
}

#[test]
fn parse_pos_reads_three_coords() {
    assert_eq!(
        parse_pos(&strings(&["100", "200", "7"]), 0),
        Some(Position::new(100, 200, 7))
    );
    assert_eq!(parse_pos(&strings(&["100", "200"]), 0), None); // too few
    assert_eq!(parse_pos(&strings(&["x", "200", "7"]), 0), None); // non-numeric
    assert_eq!(parse_pos(&strings(&[]), 0), None);
}

#[test]
fn parse_pos_reads_after_a_name() {
    assert_eq!(
        parse_pos(&strings(&["Bob", "100", "200", "7"]), 1),
        Some(Position::new(100, 200, 7))
    );
    assert_eq!(parse_pos(&strings(&["100", "200", "256"]), 0), None);
    assert_eq!(parse_pos(&strings(&["100", "65536", "7"]), 0), None);
}

#[test]
fn commands_are_split_and_joined() {
    assert_eq!(command_words("/goto \"God Diego\""), ["goto", "God Diego"]);
    assert_eq!(join(&strings(&["crystal", "coin", "100"]), 2), "crystal coin");
}

#[test]
fn gmverb_registry_is_complete_and_resolvable() {
    // Every command must declare help text and every word must resolve to it.
    for cmd in ALL_VERBS {
        assert!(!cmd.usage().is_empty(), "a GmVerb is missing its usage");
        assert!(!cmd.description().is_empty(), "a GmVerb is missing its description");
        assert!(!cmd.words().is_empty(), "a GmVerb is missing its words");
        for w in cmd.words() {
            assert!(GmVerb::from_word(w).is_some(), "from_word does not resolve '{w}'");
            assert_eq!(GmVerb::from_word(w), Some(cmd));
        }
    }
    assert!(matches!(GmVerb::from_word("i"), Some(GmVerb::Item))); // alias
    assert!(matches!(GmVerb::from_word("item"), Some(GmVerb::Item)));
    assert!(GmVerb::from_word("nonsense").is_none());
    // ghost and noclip resolve from their words
    assert!(matches!(GmVerb::from_word("ghost"), Some(GmVerb::GhostMode)));
    assert!(matches!(GmVerb::from_word("noclip"), Some(GmVerb::Noclip)));
}

#[test]
fn gmverb_registry_includes_speed_variant() {
    // Speed must be in the registry, have help text, and resolve from its words.
    let speed = GmVerb::Speed;
    assert!(ALL_VERBS.contains(&speed), "Speed must be in the registry");
    assert!(!speed.usage().is_empty(), "Speed must have usage text");
    assert!(!speed.description().is_empty(), "Speed must have description");
    assert!(!speed.words().is_empty(), "Speed must have words");
    for w in speed.words() {
        assert!(GmVerb::from_word(w).is_some(), "from_word must resolve '{w}'");
    }
    assert!(matches!(GmVerb::from_word("speed"), Some(GmVerb::Speed)));
    assert!(matches!(GmVerb::from_word("spd"), Some(GmVerb::Speed)));
}
