//! The library against a corpus of its own: every card a test names, a card
//! for every row of the behaviour table, and enough others for a table of a
//! real table's size.

use tavernlab::agent::{
    could_hit_an_enemy, harms, minion_value, position_value, score_for, self_harming_play, Score,
    Scripted, Style,
};
use tavernlab::arena::{compare_picks, fill, PickBudget};
use tavernlab::batch::Contender;
use tavernlab::cards::behaviour::{
    is_atiesh, is_fletcher, is_morchie, is_mugs_magic, is_naralex, is_niri, is_sinestra,
    is_zees_might, rule_lives_in_the_engine, sham_trial,
};
use tavernlab::cards::effects::{
    advance_gnomeregan, arcanomicon, azalina_setup, cataclysm_score, deathrattle_minion_to_hand,
    deck_has_neutrals, discard_costliest, empower, fire_one, grant_rattle, deathrattle_minions, Wanted,
};
use tavernlab::cards::lists::{
    AURAS, AWAKENED, AWAKENS, AZSHARA, CATACLYSMS, CONTROLLED, DRAWN_ACTORS, DRAWN_FOR_OPPONENT,
    FIRST_PARTS, IGNORES_TAUNT, KHADGARS, LEFT_HALVES, LEYLINES, RATTLES_ANYWHERE,
    REBORN_KEEPS_ALL, RIGHT_HALVES, RULES_IN_THE_ENGINE, SECOND_PARTS, SHAM_TRIAL, SHATTERS,
    UPGRADES_WHILE_HELD, WHOLES, WINDRUNNERS,
};
use tavernlab::cards::hooks::{
    aura, battlecry, bonus, c as row, choose_one, deathrattle, m, secret, spell, start_of_game,
    CostFn, Effect, Secret, Slot, Trigger,
};
use tavernlab::cards::lookup::{names, place_in};
use tavernlab::cards::{
    acts_when_drawn, all, apply_game_setup, awakened_by_dragon, behaviour_of, behaviours, by_dbf,
    by_id, by_name, combines, discover_pool, doubles_summons, drawn_acts_for_opponent,
    from_the_past, gift_card, gift_keywords, gift_stats, hooks, is_approximate, is_aura,
    is_implemented, is_leyline, lets_attacks_ignore_taunt, pirate_damage_bonus,
    rattles_from_hand_or_deck, reborn_keeps_enchantments, recombines, shatters_into, token,
    upgrades_while_held, windrunner_bit, windrunner_sisters, Aura, Bonus, CardDef, CardId,
    CardInfo, Class, Corpus, Ctx, Flaw, Formats, Keywords, Kind, Races, Rarity, School, Tables,
    TargetSpec, APPROXIMATE, APPROXIMATE_NOTES, DARK_GIFTS, GRANTED_RATTLES, HAS_AURA, HAS_BONUS,
    HAS_TRIGGER, PLAYABLE_CLASSES,
};
use tavernlab::deck::{
    cheapest_minions, curve_deck, implemented_pool, legal_size, legal_size_by_name, pool,
    resolve_slots, validate, DeckError, DECK_SIZE,
};
use tavernlab::deckstring::{
    decode, encode, encode_ids, format_of, resolve, CodeError, ResolveError,
};
use tavernlab::state::{
    Action, DeckCard, Game, HandCard, HeroPower, Limits, Outcome, Permanent, Player, Side, Target,
    Weapon,
};

// ---------------------------------------------------------------- fixture

/// A card as a test writes it.
#[derive(Clone)]
struct Print {
    name: &'static str,
    id: &'static str,
    dbf: u32,
    text: &'static str,
    set: &'static str,
    def: CardDef,
    children: Vec<&'static str>,
}

fn leak(s: String) -> &'static str {
    Box::leak(s.into_boxed_str())
}

const EVERYWHERE: u8 = Formats::STANDARD | Formats::WILD | Formats::ARENA;

fn blank(kind: Kind, class: Class) -> CardDef {
    CardDef {
        kind: kind as u8,
        class: class as u8,
        rarity: 2,
        school: 0,
        cost: 1,
        atk: 0,
        hp: 0,
        dur: 0,
        armor: 0,
        spell_damage: 0,
        overload: 0,
        dormant: 0,
        races: Races(0),
        keywords: Keywords(0),
        formats: Formats(EVERYWHERE),
        collectible: true,
    }
}

struct Builder {
    prints: Vec<Print>,
    next_dbf: u32,
}

impl Builder {
    fn push(&mut self, name: &'static str, id: &'static str, def: CardDef) -> &mut Print {
        self.next_dbf += 1;
        let dbf = self.next_dbf;
        self.prints.push(Print {
            name,
            id,
            dbf,
            text: "",
            set: "CORE",
            def,
            children: Vec::new(),
        });
        self.prints.last_mut().unwrap()
    }

    fn knows_id(&self, id: &str) -> bool {
        self.prints.iter().any(|p| p.id == id)
    }

    fn knows_name(&self, name: &str) -> bool {
        self.prints.iter().any(|p| p.name == name)
    }

    /// A vanilla body.
    fn body(&mut self, name: &'static str, id: &'static str, class: Class, cost: i16, atk: i16, hp: i16) -> &mut Print {
        let mut d = blank(Kind::Minion, class);
        d.cost = cost;
        d.atk = atk;
        d.hp = hp;
        d.keywords = Keywords(Keywords::TEXT_UNDERSTOOD);
        self.push(name, id, d)
    }

    fn weapon(&mut self, name: &'static str, id: &'static str, cost: i16, atk: i16, dur: i16) {
        let mut d = blank(Kind::Weapon, Class::Warrior);
        d.cost = cost;
        d.atk = atk;
        d.dur = dur;
        d.keywords = Keywords(Keywords::TEXT_UNDERSTOOD);
        self.push(name, id, d);
    }

    fn spell(&mut self, name: &'static str, id: &'static str, class: Class, cost: i16) -> &mut Print {
        let mut d = blank(Kind::Spell, class);
        d.cost = cost;
        self.push(name, id, d)
    }
}

/// The cards the tests speak of by name.
fn named_cards(b: &mut Builder) {
    let fireball = b.spell("Fireball", "CS2_029", Class::Mage, 4);
    fireball.text = "Deal 6 damage.";
    let reprint = b.spell("Fireball", "CORE_CS2_029", Class::Mage, 4);
    reprint.text = "Deal 6 damage.";
    b.spell("Frostbolt", "CS2_024", Class::Mage, 2);
    b.spell("Arcane Intellect", "CS2_023", Class::Mage, 3);

    let mut thrall = blank(Kind::Hero, Class::Shaman);
    thrall.collectible = false;
    thrall.formats = Formats(0);
    let p = b.push("Thrall", "HERO_02", thrall);
    p.dbf = 1066;
    p.set = "HERO_SKINS";
    let mut jaina = blank(Kind::Hero, Class::Mage);
    jaina.collectible = false;
    jaina.formats = Formats(0);
    b.push("Jaina Proudmoore", "HERO_08", jaina).set = "HERO_SKINS";

    // A hero card and a portrait that shares its name.
    let mut jaraxxus = blank(Kind::Hero, Class::Warlock);
    jaraxxus.collectible = false;
    jaraxxus.formats = Formats(0);
    b.push("Lord Jaraxxus", "HERO_07x", jaraxxus).set = "HERO_SKINS";
    let real = blank(Kind::Hero, Class::Warlock);
    b.push("Lord Jaraxxus", "EX1_323", real);

    b.body("Wisp", "CS2_231", Class::Neutral, 0, 1, 1);
    b.body("Goldshire Footman", "CS1_042", Class::Neutral, 1, 1, 2).def.keywords =
        Keywords(Keywords::TAUNT | Keywords::TEXT_UNDERSTOOD);
    b.body("Bloodfen Raptor", "CS2_172", Class::Neutral, 2, 3, 2).def.races = Races(Races::BEAST);
    b.body("Wolfrider", "CS2_124", Class::Neutral, 3, 3, 1).def.keywords =
        Keywords(Keywords::CHARGE | Keywords::TEXT_UNDERSTOOD);
    b.body("Boulderfist Ogre", "CS2_200", Class::Neutral, 6, 6, 7);
    b.body("Chillwind Yeti", "CS2_182", Class::Neutral, 4, 4, 5);
    b.body("Water Elemental", "CS2_033", Class::Mage, 4, 3, 6);
    b.weapon("Fiery War Axe", "CS2_106", 3, 3, 2);
    b.weapon("Arcanite Reaper", "CS2_112", 5, 5, 2);
    b.weapon("Corpse Cannon", "JAIL_CC", 3, 1, 3);
    let mut heal = blank(Kind::HeroPower, Class::Priest);
    heal.collectible = false;
    heal.formats = Formats(0);
    b.push("Lesser Heal", "HERO_09bp", heal);

    let thalnos = b.body("Bloodmage Thalnos", "EX1_012", Class::Neutral, 2, 1, 1);
    thalnos.def.spell_damage = 1;
    thalnos.def.rarity = 5;
    thalnos.def.keywords = Keywords(Keywords::DEATHRATTLE);
    b.body("Battlefield Blaster", "YOG_001", Class::Neutral, 2, 2, 2);
    b.body("Archmage Kalec", "KAL_001", Class::Mage, 7, 4, 4).def.keywords =
        Keywords(Keywords::BATTLECRY);
    b.body("Bru'kan", "BAR_048", Class::Shaman, 4, 3, 5);
    b.body("Dalaran Aspirant", "AT_006", Class::Neutral, 4, 3, 5);
    b.body("Time-Twisted Seer", "TIME_S", Class::Neutral, 3, 3, 4);
    b.body("Totem Golem", "AT_052", Class::Shaman, 2, 3, 4).def.overload = 1;
    b.spell("Feral Spirit", "EX1_248", Class::Shaman, 3).def.overload = 1;
    b.spell("Elemental Destruction", "AT_051", Class::Shaman, 3).def.overload = 2;
    b.body("Sinful Steed", "127060-sinful-steed", Class::Neutral, 4, 4, 3).def.keywords =
        Keywords(Keywords::REBORN);

    for (name, id) in [("Huffer", "NEW1_034"), ("Leokk", "NEW1_033"), ("Misha", "NEW1_032")] {
        b.body(name, id, Class::Hunter, 3, 4, 2).def.collectible = false;
    }
    let upgraded = b.spell("Animal Companion", "CORE_NEW1_031", Class::Hunter, 3);
    upgraded.def.collectible = false;
    b.spell("Animal Companion", "NEW1_031", Class::Hunter, 3).children =
        vec!["NEW1_034", "NEW1_033", "CORE_NEW1_031", "NEW1_032"];
    for (name, id) in [("Cremate", "FIR_C"), ("Rite of Atrocity", "EDR_R")] {
        b.spell(name, id, Class::Warlock, 2).children = DARK_GIFTS.to_vec();
    }
    let gifts = [
        "Waking Terror",
        "Well Rested",
        "Short Claws",
        "Bundled Up",
        "Living Nightmare",
        "Sleepwalker",
        "Rude Awakening",
        "Sweet Dreams",
        "Persisting Horror",
        "Harpy's Talons",
    ];
    for (name, id) in gifts.iter().zip(DARK_GIFTS) {
        b.spell(name, id, Class::Neutral, 0).def.collectible = false;
    }
    for id in ["CORE_DAL_575", "DAL_575"] {
        b.body("Khadgar", id, Class::Mage, 2, 2, 2).def.keywords = Keywords(0);
    }
    let azalina = b.body("Azalina Soulsever", "AZA_001", Class::Priest, 9, 5, 5);
    azalina.def.keywords = Keywords(Keywords::BATTLECRY);
    azalina.def.formats = Formats(Formats::WILD);

    // The deck behind a code that a deck site hands out.
    for dbf in [
        102217, 115139, 122832, 123385, 125442, 125467, 126415, 126416, 126600, 127711, 76318,
        111469, 118496, 120881, 122639, 122933, 122953, 126409, 127688, 130790,
    ] {
        let name = leak(format!("Site Card {dbf}"));
        let id = leak(format!("SITE_{dbf}"));
        b.body(name, id, Class::Shaman, 3, 3, 3).dbf = dbf;
    }
}

/// What the tables say of the drawn actors.
fn drawn_actors(b: &mut Builder) {
    for (i, id) in DRAWN_ACTORS.iter().enumerate() {
        let summoned = i >= 6;
        let name = leak(format!("Drawn Actor {i}"));
        if summoned {
            let p = b.body(name, id, Class::Neutral, 3, 3, 3);
            p.text = "Summoned When Drawn";
            p.def.collectible = false;
        } else {
            let p = b.spell(name, id, Class::Neutral, 1);
            p.text = "Casts When Drawn";
            p.def.collectible = false;
        }
    }
}

/// A card for every row that has none yet, of the kind its hooks ask for.
fn row_cards(b: &mut Builder) {
    let classes = [
        Class::Neutral,
        Class::DeathKnight,
        Class::DemonHunter,
        Class::Druid,
        Class::Hunter,
        Class::Mage,
        Class::Paladin,
        Class::Priest,
        Class::Rogue,
        Class::Shaman,
        Class::Warlock,
        Class::Warrior,
    ];
    for (i, row) in behaviours().iter().enumerate() {
        if b.knows_name(row.name) {
            continue;
        }
        let granted = GRANTED_RATTLES.contains(&row.name);
        let kind = if row.spell.is_some() && row.trigger.is_some() {
            Kind::Location
        } else if row.spell.is_some() || row.secret.is_some() || row.choose.is_some() {
            Kind::Spell
        } else {
            Kind::Minion
        };
        let mut d = blank(kind, classes[i % 12]);
        d.cost = 1 + (i / 12 % 8) as i16;
        if kind == Kind::Minion {
            d.atk = 1 + (i % 5) as i16;
            d.hp = 1 + (i % 6) as i16;
        }
        let mut bits = 0;
        if row.secret.is_some() {
            bits |= Keywords::SECRET;
        }
        if row.choose.is_some() {
            bits |= Keywords::CHOOSE_ONE;
        }
        if row.battlecry.is_some() {
            bits |= Keywords::BATTLECRY;
        }
        if row.deathrattle.is_some() && !granted {
            bits |= Keywords::DEATHRATTLE;
        }
        d.keywords = Keywords(bits);
        if row.name == "The Arcanomicon" {
            d.formats = Formats(Formats::WILD);
        }
        b.push(row.name, leak(format!("ROW_{i:04}")), d);
    }
}

/// A card for every id the library knows by identity.
fn token_cards(b: &mut Builder) {
    let lists: [&[&'static str]; 22] = [
        &AURAS,
        &DRAWN_FOR_OPPONENT,
        &AWAKENS,
        &AWAKENED,
        &SHATTERS,
        &LEFT_HALVES,
        &RIGHT_HALVES,
        &FIRST_PARTS,
        &SECOND_PARTS,
        &WHOLES,
        &REBORN_KEEPS_ALL,
        &RATTLES_ANYWHERE,
        &KHADGARS,
        &LEYLINES,
        &UPGRADES_WHILE_HELD,
        &RULES_IN_THE_ENGINE,
        &WINDRUNNERS,
        &IGNORES_TAUNT,
        &SHAM_TRIAL,
        &AZSHARA,
        &CATACLYSMS,
        &CONTROLLED,
    ];
    for list in lists {
        for id in list {
            if !b.knows_id(id) {
                let mut d = blank(Kind::Spell, Class::Neutral);
                d.collectible = false;
                b.push(leak(format!("Token {id}")), id, d);
            }
        }
    }
}

/// Enough other cards for a table of a real table's size.
fn filler_cards(b: &mut Builder) {
    for i in 0..24 {
        let name = leak(format!("Unwritten Spell {i}"));
        b.spell(name, leak(format!("UNW_{i}")), Class::Neutral, 2).text = "Do something new.";
    }
    let old = b.body("Relic Keeper", "OLD_001", Class::Mage, 2, 2, 3);
    old.def.formats = Formats(Formats::WILD);
    let legend = b.body("Old Legend", "OLD_002", Class::Neutral, 5, 5, 5);
    legend.def.rarity = 5;
    legend.def.formats = Formats(Formats::WILD);
    for i in 0..9_500 {
        let mut d = blank(Kind::Minion, Class::Neutral);
        d.collectible = false;
        d.formats = Formats(0);
        b.push(leak(format!("Filler {i}")), leak(format!("FIL_{i:05}")), d);
    }
}

fn tables(prints: Vec<Print>) -> Tables {
    let n = prints.len();
    let mut by_dbf: Vec<(u32, u16)> = (0..n).map(|i| (prints[i].dbf, i as u16)).collect();
    by_dbf.sort_unstable();
    let mut by_id: Vec<(&'static str, u16)> = (0..n).map(|i| (prints[i].id, i as u16)).collect();
    by_id.sort_unstable();
    let rank = |i: u16| {
        let p = &prints[i as usize];
        let portrait = p.def.kind() == Kind::Hero && p.set == "HERO_SKINS";
        (portrait, !p.def.collectible, i)
    };
    let mut names: Vec<(&'static str, u16)> = (0..n).map(|i| (prints[i].name, i as u16)).collect();
    names.sort_by(|a, b| a.0.cmp(b.0).then(rank(a.1).cmp(&rank(b.1))));
    names.dedup_by(|a, b| a.0 == b.0);
    let mut child_slices = Vec::new();
    let mut child_ids = Vec::new();
    for p in &prints {
        child_slices.push((child_ids.len() as u32, p.children.len() as u16));
        for id in &p.children {
            let at = by_id.binary_search_by_key(id, |(s, _)| *s).unwrap();
            child_ids.push(CardId(by_id[at].1));
        }
    }
    Tables {
        defs: prints.iter().map(|p| p.def).collect(),
        info: prints
            .iter()
            .map(|p| CardInfo { dbf: p.dbf, id: p.id, name: p.name, text: p.text, set: p.set })
            .collect(),
        by_dbf,
        by_id,
        by_name: names,
        child_slices,
        child_ids,
    }
}

fn all_prints() -> Vec<Print> {
    let mut b = Builder { prints: Vec::new(), next_dbf: 200_000 };
    named_cards(&mut b);
    drawn_actors(&mut b);
    row_cards(&mut b);
    token_cards(&mut b);
    filler_cards(&mut b);
    b.prints
}

fn corpus() -> Corpus {
    Corpus::new(tables(all_prints()), behaviours()).expect("the tables agree")
}

// ------------------------------------------------------------------ cards

#[test]
fn table_is_populated() {
    let c = corpus();
    let t = &c.tables;
    assert!(t.defs.len() > 10_000, "corpus looks truncated: {}", t.defs.len());
    assert_eq!(t.defs.len(), t.info.len());
    assert_eq!(t.defs.len(), t.by_dbf.len());
    assert_eq!(t.defs.len(), t.by_id.len());
}

#[test]
fn hot_table_entry_stays_small() {
    // The reason strings live in a parallel array. If this grows, a batch run
    // starts missing cache on the card table.
    assert_eq!(
        std::mem::size_of::<CardDef>(),
        32,
        "CardDef grew; strings and ids belong in CardInfo"
    );
    assert_eq!(std::mem::size_of::<Keywords>(), std::mem::size_of::<u64>());
    assert_eq!(std::mem::size_of::<Races>(), std::mem::size_of::<u32>());
}

#[test]
fn lookups_agree_with_each_other() {
    let c = corpus();
    for id in all(&c) {
        let i = id.info(&c);
        assert_eq!(by_dbf(&c, i.dbf), Some(id), "dbf lookup for {}", i.id);
        assert_eq!(by_id(&c, i.id), Some(id), "id lookup for {}", i.id);
    }
}

#[test]
fn missing_lookups_are_none_not_panics() {
    let c = corpus();
    assert_eq!(by_dbf(&c, 0xFFFF_FFFF), None);
    assert_eq!(by_id(&c, "NOT_A_CARD"), None);
    assert_eq!(by_name(&c, "Not A Card"), None);
}

#[test]
fn a_known_card_reads_correctly() {
    // Fireball is the least likely card in Hearthstone to be re-costed.
    let c = corpus();
    let fb = by_name(&c, "Fireball").expect("Fireball is in the corpus");
    let d = fb.def(&c);
    assert_eq!(d.kind(), Kind::Spell);
    assert_eq!(d.class(), Class::Mage);
    assert_eq!(d.cost, 4);
    assert!(d.collectible);
    assert!(fb.info(&c).text.contains("damage"));
}

#[test]
fn keyword_bits_decode() {
    // A vanilla taunt minion: Goldshire Footman is 1/2 Taunt.
    let c = corpus();
    let card = by_name(&c, "Goldshire Footman").expect("in corpus");
    assert!(card.def(&c).keywords.has(Keywords(Keywords::TAUNT)));
    assert!(!card.def(&c).keywords.has(Keywords(Keywords::CHARGE)));
}

#[test]
fn race_bits_decode() {
    let c = corpus();
    let card = by_name(&c, "Bloodfen Raptor").expect("in corpus");
    assert!(card.def(&c).races.has(Races(Races::BEAST)));
    assert!(!card.def(&c).races.has(Races(Races::DRAGON)));
}

#[test]
fn spell_damage_is_the_cards_own_value() {
    let c = corpus();
    for (name, expected) in [
        ("Bloodmage Thalnos", 1),
        ("Battlefield Blaster", 0),
        ("Archmage Kalec", 0),
        ("Bru'kan", 0),
        ("Dalaran Aspirant", 0),
        ("Time-Twisted Seer", 0),
    ] {
        let card = by_name(&c, name).unwrap_or_else(|| panic!("{name} is in the corpus"));
        assert_eq!(card.def(&c).spell_damage, expected, "{name}");
    }
}

#[test]
fn overload_is_the_cards_own_value() {
    let c = corpus();
    for (name, expected) in [("Totem Golem", 1), ("Feral Spirit", 1), ("Elemental Destruction", 2)] {
        let card = by_name(&c, name).unwrap_or_else(|| panic!("{name} is in the corpus"));
        assert_eq!(card.def(&c).overload, expected, "{name}");
    }
}

#[test]
fn keywords_survive_a_card_carddefs_has_never_seen() {
    let c = corpus();
    let card = by_name(&c, "Sinful Steed").expect("in corpus");
    assert!(
        card.def(&c).keywords.has(Keywords(Keywords::REBORN)),
        "a card the snapshot cannot describe lost its keywords"
    );
}

#[test]
fn children_are_the_tokens_a_card_creates() {
    let c = corpus();
    let ac = by_name(&c, "Animal Companion").expect("in corpus");
    let summons: Vec<&str> = ac.summonable_children(&c).iter().map(|x| x.name(&c)).collect();
    assert_eq!(summons, ["Huffer", "Leokk", "Misha"]);
    // The upgraded printing is a child, but no minion.
    assert_eq!(ac.children(&c).len(), 4);
}

#[test]
fn every_child_index_is_in_range() {
    let c = corpus();
    assert_eq!(c.tables.child_slices.len(), c.tables.defs.len());
    for id in all(&c) {
        for child in id.children(&c) {
            assert!(
                (child.0 as usize) < c.tables.defs.len(),
                "{} points at a card outside the table",
                id.info(&c).id
            );
        }
    }
}

#[test]
fn format_bits_are_disjoint_from_nothing_but_consistent() {
    // Standard is a subset of Wild: anything Standard-legal is Wild-legal.
    let c = corpus();
    for id in all(&c) {
        let f = id.def(&c).formats;
        if f.has(Formats(Formats::STANDARD)) {
            assert!(f.has(Formats(Formats::WILD)), "{} is Standard but not Wild", id.info(&c).id);
        }
    }
}

fn is_portrait(c: &Corpus, id: CardId) -> bool {
    id.def(c).kind() == Kind::Hero && id.info(c).set == "HERO_SKINS"
}

#[test]
fn name_lookup_never_resolves_to_a_hero_portrait() {
    // Some names belong to nothing but portraits, and resolving those to a
    // portrait is correct. The property that matters is narrower: a portrait
    // must never win over a real card.
    let c = corpus();
    for (name, idx) in c.tables.by_name.iter() {
        let id = CardId(*idx);
        if !is_portrait(&c, id) {
            continue;
        }
        let real = all(&c).into_iter().find(|o| o.info(&c).name == *name && !is_portrait(&c, *o));
        assert!(
            real.is_none(),
            "{name} resolved to a portrait while {:?} is a real card",
            real.map(|r| r.info(&c).id)
        );
    }
    let jaraxxus = by_name(&c, "Lord Jaraxxus").unwrap();
    assert_eq!(jaraxxus.info(&c).id, "EX1_323");
}

#[test]
fn copy_limit_follows_rarity() {
    let c = corpus();
    let ids = all(&c);
    let leg = ids.iter().find(|x| x.def(&c).rarity() == Rarity::Legendary).unwrap();
    let common = ids.iter().find(|x| x.def(&c).rarity() == Rarity::Common).unwrap();
    assert_eq!(leg.def(&c).copy_limit(), 1);
    assert_eq!(common.def(&c).copy_limit(), 2);
}

#[test]
fn numbers_of_the_table_name_kinds_classes_rarities_and_schools() {
    let mut d = blank(Kind::Spell, Class::Whizbang);
    assert_eq!(d.kind(), Kind::Spell);
    assert_eq!(d.class(), Class::Whizbang);
    d.class = 12;
    assert_eq!(d.class(), Class::Dream);
    for (n, school) in [(0, School::Unschooled), (3, School::Fire), (7, School::Shadow), (9, School::Unschooled)] {
        d.school = n;
        assert_eq!(d.school(), school);
    }
    for (n, rarity) in [(0, Rarity::Unrated), (1, Rarity::Free), (4, Rarity::Epic), (5, Rarity::Legendary)] {
        d.rarity = n;
        assert_eq!(d.rarity(), rarity);
    }
    d.kind = 5;
    assert!(!d.deckable());
    d.kind = 4;
    assert!(d.deckable());
    d.class = 5;
    assert!(d.playable_by(Class::Mage));
    assert!(!d.playable_by(Class::Hunter));
    d.class = 0;
    assert!(d.playable_by(Class::Hunter));
}

#[test]
fn bit_sets_insert_remove_and_combine() {
    let mut k = Keywords(0);
    assert!(k.is_empty());
    k.insert(Keywords(Keywords::TAUNT));
    k.set(Keywords(Keywords::RUSH), true);
    assert_eq!(k, Keywords(Keywords::TAUNT | Keywords::RUSH));
    assert!(k.has(Keywords(Keywords::TAUNT | Keywords::RUSH)));
    assert!(!k.has(Keywords(Keywords::TAUNT | Keywords::CHARGE)));
    assert!(k.any(Keywords(Keywords::TAUNT | Keywords::CHARGE)));
    k.set(Keywords(Keywords::RUSH), false);
    k.remove(Keywords(Keywords::CHARGE));
    assert_eq!(k, Keywords(Keywords::TAUNT));
    let both = Races(Races::BEAST) | Races(Races::DRAGON);
    assert_eq!(both & Races(Races::DRAGON), Races(Races::DRAGON));
    assert!((!both & Races(Races::BEAST)).is_empty());
    assert!((!Keywords(0)).has(Keywords(Keywords::QUEST)));
    assert_eq!(Keywords(1) & Keywords(3), Keywords(1));
}

#[test]
fn the_past_is_what_has_left_standard() {
    let c = corpus();
    let old = by_name(&c, "Relic Keeper").unwrap();
    assert!(from_the_past(old.def(&c)));
    assert!(!from_the_past(by_name(&c, "Fireball").unwrap().def(&c)));
    let past = discover_pool(&c, |d: &CardDef| from_the_past(d));
    assert!(past.contains(&old));
    assert!(past.iter().all(|x| from_the_past(x.def(&c)) && is_implemented(&c, *x)));
}

#[test]
fn a_discover_offers_what_is_collectible_deckable_and_implemented() {
    let c = corpus();
    let offered = discover_pool(&c, |d: &CardDef| d.kind() == Kind::Spell && d.cost == 4);
    assert!(offered.contains(&by_name(&c, "Fireball").unwrap()));
    let expected: Vec<CardId> = all(&c)
        .into_iter()
        .filter(|x| {
            let d = x.def(&c);
            d.collectible && d.deckable() && is_implemented(&c, *x) && d.kind() == Kind::Spell && d.cost == 4
        })
        .collect();
    assert_eq!(offered, expected);
    assert!(discover_pool(&c, |_: &CardDef| false).is_empty());
}

#[test]
fn a_token_is_found_by_its_id() {
    let c = corpus();
    assert_eq!(token(&c, "CS2_029").name(&c), "Fireball");
    let list = [CardId(7), CardId(3), CardId(7)];
    assert_eq!(place_in(&list, CardId(7)), Some(0));
    assert_eq!(place_in(&list, CardId(3)), Some(1));
    assert_eq!(place_in(&list, CardId(9)), None);
    assert!(names(&list, CardId(3)));
    assert!(!names(&list, CardId(4)));
}

fn flaw_of(change: impl Fn(&mut Tables)) -> Flaw {
    let mut t = tables(all_prints());
    change(&mut t);
    Corpus::new(t, behaviours()).err().expect("the tables are wrong")
}

#[test]
fn tables_that_do_not_agree_are_refused() {
    assert_eq!(
        flaw_of(|t| {
            t.defs.pop();
        }),
        Flaw::Lengths
    );
    assert_eq!(flaw_of(|t| t.by_dbf.swap(0, 1)), Flaw::Dbf);
    assert_eq!(flaw_of(|t| t.info[0].dbf = 1), Flaw::Dbf);
    assert_eq!(flaw_of(|t| t.by_id.swap(0, 1)), Flaw::Id);
    assert_eq!(flaw_of(|t| t.by_name.swap(0, 1)), Flaw::Name);
    // A name that leads to a portrait while a real card has it too.
    assert_eq!(
        flaw_of(|t| {
            let portrait = t.info.iter().position(|i| i.id == "HERO_07x").unwrap() as u16;
            let at = t.by_name.iter().position(|(n, _)| *n == "Lord Jaraxxus").unwrap();
            t.by_name[at].1 = portrait;
        }),
        Flaw::Name
    );
    assert_eq!(flaw_of(|t| t.child_ids[0] = CardId(65_535)), Flaw::Children);
    assert_eq!(flaw_of(|t| t.child_slices[0] = (20, 9)), Flaw::Children);
    assert_eq!(flaw_of(|t| t.defs[0].formats = Formats(Formats::STANDARD)), Flaw::Legality);
    let mut prints = all_prints();
    prints.retain(|p| p.id != "MEND_504");
    let missing = Corpus::new(tables(prints), behaviours());
    assert_eq!(missing.err(), Some(Flaw::Token));
    let mut twice = behaviours();
    twice.extend(behaviours());
    assert_eq!(Corpus::new(tables(all_prints()), twice).err(), Some(Flaw::Rows));
}

// -------------------------------------------------------------- behaviour

#[test]
fn the_dark_gift_pool_is_the_one_the_corpus_lists() {
    let c = corpus();
    for name in ["Cremate", "Rite of Atrocity"] {
        let card = by_name(&c, name).expect("in the corpus");
        let mut theirs: Vec<u16> = card.children(&c).iter().map(|x| x.0).collect();
        let mut ours: Vec<u16> = DARK_GIFTS.iter().map(|id| token(&c, id).0).collect();
        theirs.sort_unstable();
        ours.sort_unstable();
        assert_eq!(theirs, ours, "{name} lists a different pool");
    }
}

#[test]
fn every_dark_gift_effect_matches_its_printed_text() {
    let c = corpus();
    let want: [(&str, (i16, i16, i16), Keywords); 10] = [
        ("Waking Terror", (3, 0, 0), Keywords(Keywords::LIFESTEAL)),
        ("Well Rested", (2, 2, 0), Keywords(Keywords::ELUSIVE)),
        ("Short Claws", (-2, 0, -2), Keywords(Keywords::NONE)),
        ("Bundled Up", (0, 4, 0), Keywords(Keywords::TAUNT)),
        ("Living Nightmare", (0, 0, 0), Keywords(Keywords::NONE)),
        ("Sleepwalker", (0, 0, 0), Keywords(Keywords::CHARGE)),
        ("Rude Awakening", (0, 0, 0), Keywords(Keywords::NONE)),
        ("Sweet Dreams", (4, 5, 0), Keywords(Keywords::NONE)),
        ("Persisting Horror", (0, 0, 0), Keywords(Keywords::REBORN)),
        (
            "Harpy's Talons",
            (0, 0, 0),
            Keywords(Keywords::DIVINE_SHIELD | Keywords::WINDFURY),
        ),
    ];
    for (i, (name, stats, kw)) in want.iter().enumerate() {
        let gift = i as u8 + 1;
        assert_eq!(
            gift_card(&c, gift).map(|x| x.name(&c)),
            Some(*name),
            "gift {gift} is not {name}"
        );
        assert_eq!(gift_stats(gift), *stats, "{name}");
        assert_eq!(gift_keywords(gift), *kw, "{name}");
    }
    assert_eq!(gift_card(&c, 0), None);
    assert_eq!(gift_card(&c, 11), None);
}

#[test]
fn every_drawn_actor_really_prints_it() {
    let c = corpus();
    for id in DRAWN_ACTORS {
        let card = token(&c, id);
        let name = card.name(&c);
        // Keyed by id, so nothing else may answer to the same name: a second
        // printing would act on the draw for one copy and not the other.
        assert_eq!(
            all(&c).into_iter().filter(|x| x.name(&c) == name).count(),
            1,
            "{name} has more than one printing"
        );
        let text = card.info(&c).text;
        assert!(text.contains("When Drawn"), "{name} does not print \"When Drawn\"");
        // A spell casts, a minion is summoned; the card's own kind is what the
        // draw path reads, so the two must agree.
        let is_spell = card.def(&c).kind() == Kind::Spell;
        assert_eq!(
            is_spell,
            text.contains("Casts When Drawn"),
            "{name} prints one thing and is another"
        );
        assert!(acts_when_drawn(&c, card));
    }
    assert!(!acts_when_drawn(&c, by_name(&c, "Fireball").unwrap()));
    assert!(drawn_acts_for_opponent(&c, token(&c, "127024-imp-formant")));
    assert!(!drawn_acts_for_opponent(&c, token(&c, "SW_439t")));
}

#[test]
fn every_declared_card_exists_in_the_corpus() {
    let c = corpus();
    for b in behaviours() {
        assert!(by_name(&c, b.name).is_some(), "no card named {:?}", b.name);
    }
}

#[test]
fn every_approximate_card_is_real_and_implemented() {
    let c = corpus();
    for (name, note) in APPROXIMATE.iter().zip(APPROXIMATE_NOTES) {
        let card = by_name(&c, name).unwrap_or_else(|| panic!("no card named {name:?}"));
        assert!(
            is_implemented(&c, card),
            "{name} is listed as approximate but is not implemented at all"
        );
        assert!(is_approximate(&c, card));
        assert!(!note.is_empty(), "{name} must say what is missing");
    }
    assert!(!is_approximate(&c, by_name(&c, "Fireball").unwrap()));
}

#[test]
fn no_card_is_declared_twice() {
    let rows = behaviours();
    let mut names: Vec<&str> = rows.iter().map(|b| b.name).collect();
    names.sort_unstable();
    let before = names.len();
    names.dedup();
    assert_eq!(names.len(), before, "a card is listed twice in the rows");
    assert_eq!(before, 1020);
}

#[test]
fn behaviours_attach_to_every_printing() {
    // Fireball exists as more than one card id; both must carry the spell.
    let c = corpus();
    let printings: Vec<CardId> =
        all(&c).into_iter().filter(|x| x.info(&c).name == "Fireball").collect();
    assert!(printings.len() > 1, "expected reprints of Fireball to test against");
    for p in printings {
        let b = behaviour_of(&c, p);
        assert!(b.is_some(), "{} lost its behaviour", p.info(&c).id);
        assert_eq!(b.unwrap().target, TargetSpec::AnyCharacter);
    }
}

#[test]
fn a_spell_declares_a_cast_effect_or_is_a_secret_or_a_quest() {
    let c = corpus();
    for b in behaviours() {
        let card = by_name(&c, b.name).unwrap();
        if card.def(&c).kind() != Kind::Spell {
            continue;
        }
        let is_secret = card.def(&c).keywords.has(Keywords(Keywords::SECRET));
        assert_eq!(b.secret.is_some(), is_secret, "{} and its SECRET keyword disagree", b.name);
        let is_quest = card.def(&c).keywords.has(Keywords(Keywords::QUEST))
            || card.def(&c).keywords.has(Keywords(Keywords::SIDE_QUEST));
        if is_quest {
            assert!(
                b.trigger.is_some() && b.spell.is_none(),
                "{} is a Quest/Sidequest; its progress belongs in `trigger`, not `spell`",
                b.name
            );
            continue;
        }
        // A Choose One card's behaviour lives in its modes, so it has no cast
        // effect of its own either; nor does a bare enchantment that only
        // exists to be granted.
        if GRANTED_RATTLES.contains(&b.name) && b.spell.is_none() {
            continue;
        }
        assert_eq!(
            b.spell.is_some(),
            !is_secret && b.choose.is_none(),
            "{} should have a cast effect exactly when it is neither a secret nor a Choose One",
            b.name
        );
        assert!(b.battlecry.is_none(), "{} is a spell with a battlecry", b.name);
    }
}

#[test]
fn choose_one_cards_declare_at_least_two_modes() {
    let c = corpus();
    for b in behaviours() {
        if let Some(modes) = &b.choose {
            assert!(modes.len() >= 2, "{} is a Choose One with {} mode(s)", b.name, modes.len());
            assert!(
                b.spell.is_none() && b.battlecry.is_none(),
                "{} has both modes and a plain effect",
                b.name
            );
            let card = by_name(&c, b.name).unwrap();
            assert!(
                card.def(&c).keywords.has(Keywords(Keywords::CHOOSE_ONE))
                    || card.info(&c).text.contains("Choose to")
                    || b.name == "The Arcanomicon",
                "{} has modes but the card is not a Choose One",
                b.name
            );
        }
    }
}

#[test]
fn a_minion_never_declares_a_cast_effect() {
    let c = corpus();
    let ids = all(&c);
    for b in behaviours() {
        let card = by_name(&c, b.name).unwrap();
        if card.def(&c).kind() != Kind::Minion {
            continue;
        }
        // A name can belong to both, and the table is keyed by name: what is
        // really asked is whether *no* printing of the name is a spell.
        if ids.iter().any(|x| x.name(&c) == b.name && x.def(&c).kind() == Kind::Spell) {
            continue;
        }
        assert!(b.spell.is_none(), "{} is a minion with a cast effect", b.name);
    }
}

#[test]
fn declared_battlecries_match_the_printed_keyword() {
    let c = corpus();
    for b in behaviours() {
        let card = by_name(&c, b.name).unwrap();
        if b.battlecry.is_some() {
            let d = card.def(&c);
            let text = card.info(&c).text;
            assert!(
                d.keywords.has(Keywords(Keywords::BATTLECRY))
                    || d.keywords.has(Keywords(Keywords::COMBO))
                    || d.keywords.has(Keywords(Keywords::OUTCAST))
                    || text.contains("Kindred")
                    || text.contains("When summoned")
                    || text.contains("Colossal"),
                "{} has a play effect the card text does not mention",
                b.name
            );
        }
    }
}

#[test]
fn declared_deathrattles_match_the_printed_keyword() {
    let c = corpus();
    for b in behaviours() {
        let card = by_name(&c, b.name).unwrap();
        if b.deathrattle.is_some() && !GRANTED_RATTLES.contains(&b.name) {
            assert!(
                card.def(&c).keywords.has(Keywords(Keywords::DEATHRATTLE)),
                "{} has a deathrattle the card text does not mention",
                b.name
            );
        }
    }
}

#[test]
fn vanilla_minions_count_as_implemented() {
    let c = corpus();
    let vanilla = by_name(&c, "Bloodfen Raptor").unwrap();
    assert!(is_implemented(&c, vanilla));
    assert!(behaviour_of(&c, vanilla).is_none(), "a vanilla body needs no code");
}

#[test]
fn a_text_card_without_behaviour_is_not_implemented() {
    let c = corpus();
    let unimplemented = all(&c)
        .into_iter()
        .find(|x| x.def(&c).kind() == Kind::Spell && behaviour_of(&c, *x).is_none())
        .expect("plenty of spells are still unimplemented");
    assert!(!is_implemented(&c, unimplemented));
}

#[test]
fn the_index_is_dense_and_covers_the_table() {
    let c = corpus();
    assert_eq!(c.index.len(), c.tables.defs.len());
}

#[test]
fn hooks_name_auras_bonuses_and_triggers() {
    let c = corpus();
    let bits = |name: &str| hooks(&c)[by_name(&c, name).unwrap().0 as usize];
    assert_eq!(bits("Stormwind Champion"), HAS_AURA);
    assert_eq!(bits("Amani Berserker"), HAS_BONUS);
    assert_eq!(bits("Corpse Cannon"), HAS_TRIGGER);
    assert_eq!(bits("Fireball"), 0);
    assert_eq!(bits("Wisp"), 0);
    assert_eq!(hooks(&c).len(), c.tables.defs.len());
}

#[test]
fn rows_say_what_their_cards_do() {
    let rows = behaviours();
    let row = |name: &str| rows.iter().find(|b| b.name == name).unwrap();
    assert_eq!(row("Dire Wolf Alpha").aura, Some(Aura::Neighbours(1, 0)));
    assert_eq!(row("Murloc Warleader").aura, Some(Aura::OthersOfRace(Races::MURLOC, 2, 0)));
    assert_eq!(row("Stormwind Champion").aura, Some(Aura::Others(1, 1)));
    assert_eq!(row("Grommash Hellscream").bonus, Some(Bonus::Damaged(6)));
    assert_eq!(row("Scrappy Defender").bonus, Some(Bonus::DeckAtLeast(25, 5)));
    assert_eq!(row("Ironbeak Owl").target, TargetSpec::AnyMinion);
    assert!(row("Ironbeak Owl").battlecry.is_some());
    assert!(row("Loot Hoarder").deathrattle.is_some());
    assert_eq!(row("Dread Corsair").cost_delta, Some(CostFn::WeaponAttack));
    assert_eq!(row("Gladesong Siren").cost_delta, Some(CostFn::CastThisTurn(0b1010_0000, -5)));
    assert_eq!(row("Crowd Control").cost_delta, Some(CostFn::DeckAtLeast(25, -2)));
    assert_eq!(row("Loot Hoarder").cost_delta, None);
    let wrath = row("Wrath").choose.as_ref().unwrap();
    assert_eq!(wrath.len(), 2);
    assert_eq!(wrath[0].target, TargetSpec::AnyMinion);
    // Its two halves do different things.
    assert_eq!(wrath[0].effect.slot, Slot::Mode(0));
    assert_eq!(wrath[1].effect.slot, Slot::Mode(1));
    assert_eq!(wrath[0].effect.row, wrath[1].effect.row);
    let rex = row("Triennium Rex");
    assert_ne!(rex.battlecry, rex.deathrattle);
    let mut effects = Vec::new();
    for b in &rows {
        effects.extend([b.spell, b.battlecry, b.deathrattle, b.start_of_game].into_iter().flatten());
        effects.extend(b.choose.iter().flatten().map(|mode| mode.effect));
    }
    for (i, e) in effects.iter().enumerate() {
        assert!(!effects[..i].contains(e), "{e:?} stands for two effects");
    }
    assert!(rows[0].spell.is_some());
    assert_eq!(rows[0].name, "The Coin");
}

#[test]
fn a_row_answers_the_hook_it_is_made_for() {
    let none = TargetSpec::NoTarget;
    let effect = Effect { row: 7, slot: Slot::Spell };
    let cast = spell("A", TargetSpec::AnyMinion, effect);
    assert_eq!((cast.name, cast.target, cast.spell), ("A", TargetSpec::AnyMinion, Some(effect)));
    assert!(cast.battlecry.is_none() && cast.deathrattle.is_none() && cast.choose.is_none());
    assert_eq!(battlecry("A", none, effect).battlecry, Some(effect));
    assert_eq!(deathrattle("A", effect).deathrattle, Some(effect));
    assert_eq!(secret("A", Secret(3)).secret, Some(Secret(3)));
    assert_eq!(tavernlab::cards::hooks::trigger("A", Trigger(3)).trigger, Some(Trigger(3)));
    assert_eq!(aura("A", Aura::Others(1, 1)).aura, Some(Aura::Others(1, 1)));
    assert_eq!(bonus("A", Bonus::Armed(2)).bonus, Some(Bonus::Armed(2)));
    assert_eq!(start_of_game("A", effect).start_of_game, Some(effect));
    let modes = vec![m(none, effect), m(TargetSpec::EnemyMinion, effect)];
    assert_eq!(choose_one("A", modes.clone()).choose, Some(modes));
    let both = row(
        "A",
        none,
        Some(effect),
        None,
        Some(effect),
        None,
        None,
        None,
        None,
        Some(CostFn::WeaponAttack),
        None,
    );
    assert_eq!((both.spell, both.deathrattle), (Some(effect), Some(effect)));
    assert_eq!(both.cost_delta, Some(CostFn::WeaponAttack));
    assert!(both.bonus.is_none() && both.secret.is_none() && both.start_of_game.is_none());
}

#[test]
fn the_lists_name_their_cards_and_no_others() {
    let c = corpus();
    let card = |id: &str| token(&c, id);
    let fireball = by_name(&c, "Fireball").unwrap();
    assert!(is_aura(&c, card("END_011")) && !is_aura(&c, fireball));
    assert!(doubles_summons(&c, card("DAL_575")) && !doubles_summons(&c, fireball));
    assert!(is_leyline(&c, card("MEND_500")) && !is_leyline(&c, fireball));
    assert!(upgrades_while_held(&c, card("FIR_911")) && !upgrades_while_held(&c, fireball));
    assert!(rattles_from_hand_or_deck(&c, card("JAIL_398")) && !rattles_from_hand_or_deck(&c, fireball));
    assert!(lets_attacks_ignore_taunt(&c, card("BT_187")) && !lets_attacks_ignore_taunt(&c, fireball));
    assert!(reborn_keeps_enchantments(&c, by_name(&c, "Sinful Steed").unwrap()));
    assert!(!reborn_keeps_enchantments(&c, fireball));
    assert!(rule_lives_in_the_engine(&c, card("TIME_606")) && !rule_lives_in_the_engine(&c, fireball));
    assert!(is_morchie(&c, card("END_036")) && !is_morchie(&c, fireball));
    assert!(is_sinestra(&c, card("CATA_154")) && !is_sinestra(&c, fireball));
    assert!(is_niri(&c, card("TLC_836")) && !is_niri(&c, fireball));
    assert!(is_fletcher(&c, card("TIME_606")) && !is_fletcher(&c, fireball));
    assert!(is_naralex(&c, card("EDR_844")) && !is_naralex(&c, fireball));
    assert!(is_atiesh(&c, card("TIME_890t")) && !is_atiesh(&c, fireball));
    assert!(is_mugs_magic(&c, card("JAIL_800hp1")) && !is_mugs_magic(&c, fireball));
    assert!(is_zees_might(&c, card("JAIL_800hp2")) && !is_zees_might(&c, fireball));
    let trial = sham_trial(&c);
    assert_eq!(trial.len(), 9);
    assert_eq!(trial[8], card("132848-tonic-of-tyranny"));
    let leylines = arcanomicon(&c);
    assert_eq!(leylines, vec![card("MEND_504"), card("MEND_500"), card("MEND_502")]);
}

#[test]
fn halves_split_and_come_together() {
    let c = corpus();
    let card = |id: &str| token(&c, id);
    let (left, right) = shatters_into(&c, card("CATA_306")).unwrap();
    assert_eq!((left, right), (card("CATA_306t1"), card("CATA_306t2")));
    assert_eq!(recombines(&c, left, right), Some(card("CATA_306")));
    assert_eq!(recombines(&c, right, left), None);
    assert_eq!(recombines(&c, left, card("CATA_479t2")), None);
    assert_eq!(shatters_into(&c, left), None);
    let (life, death, whole) = (card("TLC_817t3"), card("TLC_817t4"), card("TLC_817t5"));
    assert_eq!(combines(&c, life, death), Some(whole));
    assert_eq!(combines(&c, death, life), Some(whole));
    assert_eq!(combines(&c, life, life), None);
    assert_eq!(awakened_by_dragon(&c, card("CATA_552")), Some(card("CATA_552t")));
    assert_eq!(awakened_by_dragon(&c, card("CATA_552t")), None);
    assert!(is_implemented(&c, card("CATA_552")));
}

// ------------------------------------------------------------------- deck

const STANDARD: Formats = Formats(Formats::STANDARD);
const WILD: Formats = Formats(Formats::WILD);
const ARENA: Formats = Formats(Formats::ARENA);

#[test]
fn generated_decks_are_legal() {
    let c = corpus();
    for class in PLAYABLE_CLASSES {
        let cheap = cheapest_minions(&c, class, STANDARD);
        assert_eq!(validate(&c, &cheap, class, STANDARD), Ok(()), "{class:?} cheap");
        if let Some(d) = curve_deck(&c, class, STANDARD) {
            assert_eq!(validate(&c, &d, class, STANDARD), Ok(()), "{class:?} curve");
        }
    }
}

#[test]
fn most_classes_can_field_a_curve_deck() {
    let c = corpus();
    let n = PLAYABLE_CLASSES.iter().filter(|k| curve_deck(&c, **k, STANDARD).is_some()).count();
    assert!(n >= 8, "only {n} of 11 classes can field a curve deck");
}

#[test]
fn a_curve_deck_contains_only_implemented_cards() {
    let c = corpus();
    for class in PLAYABLE_CLASSES {
        let Some(d) = curve_deck(&c, class, STANDARD) else {
            continue;
        };
        for x in d {
            assert!(is_implemented(&c, x), "{} is not implemented", x.name(&c));
        }
    }
}

#[test]
fn a_curve_deck_is_not_all_minions() {
    let c = corpus();
    let total: usize = PLAYABLE_CLASSES
        .iter()
        .map(|k| {
            curve_deck(&c, *k, STANDARD)
                .unwrap_or_default()
                .iter()
                .filter(|x| x.def(&c).kind() == Kind::Spell)
                .count()
        })
        .sum();
    assert!(total > 0, "no class deck contains a single spell");
}

#[test]
fn a_curve_deck_follows_its_curve() {
    let c = corpus();
    for (format, want) in [
        (STANDARD, [0usize, 4, 6, 6, 5, 4, 3, 1, 1]),
        (ARENA, [0, 4, 7, 6, 5, 4, 2, 1, 1]),
    ] {
        let deck = curve_deck(&c, Class::Mage, format).expect("the pool is deep enough");
        for (cost, n) in want.iter().enumerate() {
            let held = deck.iter().filter(|x| x.def(&c).cost as usize == cost).count();
            assert_eq!(held, *n, "cost {cost}");
        }
        assert_eq!(deck.len(), DECK_SIZE);
    }
    // A class that cannot fill a deck gets none.
    assert_eq!(curve_deck(&c, Class::Mage, Formats(8)), None);
}

/// A corpus in which a format of its own holds these cards and no others, each
/// a body of so much cost and so many copies.
fn corpus_with_pool(cards: &[(&'static str, i16, u8)]) -> Corpus {
    let mut b = Builder { prints: all_prints(), next_dbf: 300_000 };
    for (i, (name, cost, copies)) in cards.iter().enumerate() {
        let p = b.body(name, leak(format!("OWN_{i}")), Class::Neutral, *cost, 2, 2);
        p.def.rarity = if *copies == 1 { 5 } else { 2 };
        p.def.formats = Formats(8);
    }
    Corpus::new(tables(b.prints), behaviours()).expect("the tables agree")
}

fn bodies(n: usize, cost: i16, copies: u8) -> Vec<(&'static str, i16, u8)> {
    (0..n).map(|i| (leak(format!("Own Body {i}")), cost, copies)).collect()
}

#[test]
fn a_pool_that_can_fill_thirty_places_gives_a_deck() {
    let own = Formats(8);
    let held = |deck: &[CardId], x: CardId| deck.iter().filter(|y| **y == x).count();
    // Off the curve altogether, but two copies each.
    let c = corpus_with_pool(&bodies(20, 9, 2));
    let deck = curve_deck(&c, Class::Mage, own).expect("forty places can be filled");
    assert_eq!(validate(&c, &deck, Class::Mage, own), Ok(()));
    assert_eq!(deck.len(), DECK_SIZE);
    // One copy of each before the second of any.
    let pool = implemented_pool(&c, Class::Mage, own);
    assert!(pool[..10].iter().all(|x| held(&deck, *x) == 2));
    assert!(pool[10..].iter().all(|x| held(&deck, *x) == 1));
    // Exactly thirty places, and one fewer.
    let c = corpus_with_pool(&bodies(15, 9, 2));
    assert_eq!(curve_deck(&c, Class::Mage, own).map(|d| d.len()), Some(30));
    let mut short = bodies(14, 9, 2);
    short.push(("Own Legend", 9, 1));
    let c = corpus_with_pool(&short);
    assert_eq!(curve_deck(&c, Class::Mage, own), None);
}

#[test]
fn the_card_that_resizes_a_deck_stays_out_of_generated_ones() {
    let own = Formats(8);
    let resizes = |c: &Corpus, d: &[CardId]| d.iter().any(|x| x.name(c) == "Azalina Soulsever");
    let mut cards = bodies(20, 4, 2);
    cards.push(("Azalina Soulsever", 1, 1));
    let c = corpus_with_pool(&cards);
    assert!(implemented_pool(&c, Class::Mage, own).iter().any(|x| resizes(&c, &[*x])));
    let curve = curve_deck(&c, Class::Mage, own).unwrap();
    let cheap = cheapest_minions(&c, Class::Mage, own);
    for deck in [curve, cheap] {
        assert_eq!(deck.len(), 30);
        assert!(!resizes(&c, &deck));
        assert_eq!(validate(&c, &deck, Class::Mage, own), Ok(()));
    }
    // Where thirty places cannot be filled without it, it is one of the
    // thirty, and the list is not legal at that size.
    let mut cards = bodies(14, 4, 2);
    cards.push(("Own Legend", 4, 1));
    cards.push(("Azalina Soulsever", 1, 1));
    let c = corpus_with_pool(&cards);
    let curve = curve_deck(&c, Class::Mage, own).unwrap();
    let cheap = cheapest_minions(&c, Class::Mage, own);
    assert_eq!(cheap[0].name(&c), "Azalina Soulsever");
    for deck in [curve, cheap] {
        assert_eq!(deck.len(), 30);
        assert_eq!(deck.iter().filter(|x| resizes(&c, &[**x])).count(), 1);
        assert_eq!(validate(&c, &deck, Class::Mage, own), Err(DeckError::WrongSize(30)));
    }
    // A pool that cannot fill thirty places even with it makes no curve deck,
    // and its cheapest minions are all of them.
    let mut cards = bodies(14, 4, 2);
    cards.push(("Azalina Soulsever", 1, 1));
    let c = corpus_with_pool(&cards);
    assert!(curve_deck(&c, Class::Mage, own).is_none());
    assert_eq!(cheapest_minions(&c, Class::Mage, own).len(), 29);
}

#[test]
fn validation_catches_each_kind_of_mistake() {
    let c = corpus();
    let class = Class::Mage;
    let good = cheapest_minions(&c, class, STANDARD);

    let mut short = good.clone();
    short.pop();
    assert_eq!(validate(&c, &short, class, STANDARD), Err(DeckError::WrongSize(29)));

    // Three copies of the first card.
    let mut dupes = good.clone();
    dupes[1] = good[0];
    dupes[2] = good[0];
    assert!(matches!(
        validate(&c, &dupes, class, STANDARD),
        Err(DeckError::TooManyCopies(_, _))
    ));

    // A card from another class.
    let other = pool(&c, Class::Hunter, STANDARD)
        .into_iter()
        .find(|x| x.def(&c).class() == Class::Hunter)
        .unwrap();
    let mut wrong = good.clone();
    wrong[0] = other;
    assert_eq!(validate(&c, &wrong, class, STANDARD), Err(DeckError::WrongClass(other)));

    // Something that is no card for a deck at all.
    let power = by_name(&c, "Lesser Heal").unwrap();
    let mut odd = good.clone();
    odd[3] = power;
    assert_eq!(validate(&c, &odd, class, STANDARD), Err(DeckError::NotDeckable(power)));

    // Three copies name the card and how many there are.
    assert_eq!(validate(&c, &dupes, class, STANDARD), Err(DeckError::TooManyCopies(good[0], 3)));
}

#[test]
fn a_wild_only_card_is_rejected_from_standard() {
    let c = corpus();
    let wild_only = all(&c)
        .into_iter()
        .find(|x| {
            let d = x.def(&c);
            d.collectible
                && d.deckable()
                && d.formats.has(WILD)
                && !d.formats.has(STANDARD)
                && d.playable_by(Class::Mage)
        })
        .expect("the corpus has Wild-only Mage cards");
    let mut deck = cheapest_minions(&c, Class::Mage, STANDARD);
    deck[0] = wild_only;
    assert_eq!(validate(&c, &deck, Class::Mage, STANDARD), Err(DeckError::NotLegal(wild_only)));
    // The same list is fine in Wild.
    assert_eq!(validate(&c, &deck, Class::Mage, WILD), Ok(()));
}

#[test]
fn the_pool_is_not_empty_for_any_class() {
    let c = corpus();
    for class in PLAYABLE_CLASSES {
        assert!(pool(&c, class, STANDARD).len() > 50, "{class:?}");
    }
}

#[test]
fn the_implemented_pool_is_the_part_of_the_pool_that_is_understood() {
    let c = corpus();
    let whole = pool(&c, Class::Druid, STANDARD);
    let part = implemented_pool(&c, Class::Druid, STANDARD);
    let expected: Vec<CardId> = whole.iter().copied().filter(|x| is_implemented(&c, *x)).collect();
    assert_eq!(part, expected);
    assert!(part.len() < whole.len());
}

#[test]
fn resolve_slots_counts_implemented_copies_and_lists_the_rest() {
    let c = corpus();
    let unimplemented = all(&c)
        .into_iter()
        .find(|x| {
            let d = x.def(&c);
            d.collectible && d.deckable() && !is_implemented(&c, *x)
        })
        .expect("the table has unimplemented cards");
    let report = resolve_slots(
        &c,
        &[("Fireball", 2), ("Not A Real Card", 1), (unimplemented.name(&c), 1)],
    );
    assert_eq!(report.ok, 2);
    assert_eq!(report.total, 4);
    assert_eq!(
        report.missing,
        vec![
            ("Not A Real Card".to_string(), 1),
            (unimplemented.name(&c).to_string(), 1),
        ]
    );
}

#[test]
fn one_card_makes_twenty_the_legal_size() {
    let c = corpus();
    let azalina = by_name(&c, "Azalina Soulsever").unwrap();
    let fireball = by_name(&c, "Fireball").unwrap();
    assert_eq!(legal_size(&c, &[fireball]), 30);
    assert_eq!(legal_size(&c, &[fireball, azalina]), 20);
    assert_eq!(legal_size_by_name(|n: &str| n == "Azalina Soulsever"), 20);
    assert_eq!(legal_size_by_name(|n: &str| n == "Fireball"), 30);
}

// ------------------------------------------------------------- deckstring

/// A real Standard deck, written through the encoder so the test does not
/// depend on a site's export staying online.
fn a_real_deck(c: &Corpus) -> (u32, Vec<(u32, u32)>) {
    let hero = by_name(c, "Thrall").map(|x| x.info(c).dbf).unwrap_or(1066);
    let cards = ["Fireball", "Frostbolt", "Arcane Intellect"]
        .iter()
        .map(|n| (by_name(c, n).unwrap().info(c).dbf, 2))
        .collect();
    (hero, cards)
}

#[test]
fn a_real_site_code_decodes_the_way_the_reference_did() {
    let c = corpus();
    let code = "AAECAaoICsmeBsODB9C/B/nDB4LUB5vUB8/bB9DbB4jdB9/lBwqe1ATt5gbgnQexsAePvge1wAfJwAfJ2wfI5Qfm/QcAAA==";
    let d = decode(code).expect("a real deck code");
    assert_eq!((d.version, d.format), (1, 2));
    assert_eq!(d.heroes, vec![1066]);
    assert!(d.sideboards.is_empty());
    let mut got = d.cards.clone();
    got.sort_unstable();
    let mut want: Vec<(u32, u32)> = vec![
        (102217, 1),
        (115139, 1),
        (122832, 1),
        (123385, 1),
        (125442, 1),
        (125467, 1),
        (126415, 1),
        (126416, 1),
        (126600, 1),
        (127711, 1),
        (76318, 2),
        (111469, 2),
        (118496, 2),
        (120881, 2),
        (122639, 2),
        (122933, 2),
        (122953, 2),
        (126409, 2),
        (127688, 2),
        (130790, 2),
    ];
    want.sort_unstable();
    assert_eq!(got, want);

    let r = resolve(&c, code).expect("it resolves");
    assert_eq!(r.class, Class::Shaman);
    assert_eq!(r.total(), 30);
}

#[test]
fn encode_ids_collapses_copies() {
    let c = corpus();
    let (hero, _) = a_real_deck(&c);
    let fireball = by_name(&c, "Fireball").unwrap();
    let frostbolt = by_name(&c, "Frostbolt").unwrap();
    let code = encode_ids(&c, hero, &[fireball, fireball, frostbolt], 2);
    let d = decode(&code).expect("the collapsed list encodes");
    let mut got = d.cards;
    got.sort_unstable();
    let mut want = vec![(fireball.info(&c).dbf, 2), (frostbolt.info(&c).dbf, 1)];
    want.sort_unstable();
    assert_eq!(got, want);
    assert_eq!(d.heroes, vec![hero]);
    assert_eq!(d.format, 2);
}

#[test]
fn the_order_of_the_cards_does_not_change_their_code() {
    let c = corpus();
    let card = |name: &str| by_name(&c, name).unwrap();
    let (a, b, w) = (card("Fireball"), card("Frostbolt"), card("Wisp"));
    let one = encode_ids(&c, 1066, &[a, b, a, w, w, w], 2);
    let other = encode_ids(&c, 1066, &[w, a, w, b, w, a], 2);
    assert_eq!(one, other);
    let dbf = |x: CardId| x.info(&c).dbf;
    assert_eq!(one, encode(1066, &[(dbf(w), 3), (dbf(b), 1), (dbf(a), 2)], 2));
    assert_eq!(one, encode(1066, &[(dbf(a), 2), (dbf(w), 3), (dbf(b), 1)], 2));
}

#[test]
fn a_code_round_trips() {
    let c = corpus();
    let (hero, cards) = a_real_deck(&c);
    let code = encode(hero, &cards, 2);
    let d = decode(&code).expect("our own code decodes");
    assert_eq!(d.version, 1);
    assert_eq!(d.format, 2);
    assert_eq!(d.heroes, vec![hero]);
    let mut got = d.cards.clone();
    got.sort_unstable();
    let mut want = cards.clone();
    want.sort_unstable();
    assert_eq!(got, want);
}

#[test]
fn counts_above_two_survive_the_round_trip() {
    let c = corpus();
    let (hero, _) = a_real_deck(&c);
    let fireball = by_name(&c, "Fireball").unwrap().info(&c).dbf;
    let code = encode(hero, &[(fireball, 10)], 2);
    assert_eq!(decode(&code).unwrap().cards, vec![(fireball, 10)]);
}

#[test]
fn resolution_names_what_it_cannot_play() {
    let c = corpus();
    let hero = by_name(&c, "Jaina Proudmoore")
        .map(|x| x.info(&c).dbf)
        .unwrap_or_else(|| by_name(&c, "Fireball").unwrap().info(&c).dbf);
    let fireball = by_name(&c, "Fireball").unwrap().info(&c).dbf;
    // A real card the engine does not implement, taken from the table.
    let unimpl = all(&c)
        .into_iter()
        .find(|x| {
            let d = x.def(&c);
            d.collectible && d.deckable() && d.formats.has(STANDARD) && !is_implemented(&c, *x)
        })
        .expect("the table has unimplemented Standard cards");
    let code = encode(hero, &[(fireball, 2), (unimpl.info(&c).dbf, 1), (999_999, 1)], 2);
    let r = resolve(&c, &code).expect("the code itself is valid");
    assert_eq!(r.format, Some(STANDARD));
    assert!(!r.playable());
    assert_eq!(r.unimplemented, vec![unimpl.name(&c)]);
    assert_eq!(r.missing, vec![999_999]);
    assert!(r.ids.is_empty(), "an unplayable list must not be handed to the engine");
}

#[test]
fn a_playable_list_comes_back_as_card_ids() {
    let c = corpus();
    let hero = by_name(&c, "Jaina Proudmoore").unwrap().info(&c).dbf;
    let fireball = by_name(&c, "Fireball").unwrap();
    let code = encode(hero, &[(fireball.info(&c).dbf, 2)], 2);
    let r = resolve(&c, &code).unwrap();
    assert!(r.playable());
    assert_eq!(r.class, Class::Mage);
    assert_eq!(r.ids, vec![fireball, fireball]);
    assert_eq!(r.total(), 2);
}

#[test]
fn a_wild_only_card_in_a_standard_code_is_illegal_not_missing() {
    let c = corpus();
    let wild_only = all(&c)
        .into_iter()
        .find(|x| {
            let d = x.def(&c);
            d.collectible
                && d.deckable()
                && d.formats.has(WILD)
                && !d.formats.has(STANDARD)
                && is_implemented(&c, *x)
        })
        .expect("the table has implemented Wild-only cards");
    let hero = by_name(&c, "Jaina Proudmoore").unwrap().info(&c).dbf;
    let code = encode(hero, &[(wild_only.info(&c).dbf, 1)], 2);
    let r = resolve(&c, &code).unwrap();
    assert_eq!(r.illegal, vec![wild_only.name(&c)]);
    assert!(r.missing.is_empty());
    // The same list is fine in Wild.
    let wild = resolve(&c, &encode(hero, &[(wild_only.info(&c).dbf, 1)], 1)).unwrap();
    assert!(wild.illegal.is_empty());
}

#[test]
fn the_class_falls_back_to_a_vote_when_the_hero_is_not_one() {
    let c = corpus();
    let fireball = by_name(&c, "Fireball").unwrap();
    let wisp = by_name(&c, "Wisp").expect("Wisp is in the corpus");
    let code = encode(
        wisp.info(&c).dbf, // a neutral minion where a hero portrait belongs
        &[(fireball.info(&c).dbf, 2), (wisp.info(&c).dbf, 2)],
        2,
    );
    assert_eq!(resolve(&c, &code).unwrap().class, Class::Mage);
}

#[test]
fn a_tied_vote_goes_to_the_later_class() {
    let c = corpus();
    let wisp = by_name(&c, "Wisp").unwrap().info(&c).dbf;
    let fireball = by_name(&c, "Fireball").unwrap().info(&c).dbf;
    let golem = by_name(&c, "Totem Golem").unwrap().info(&c).dbf;
    let tied = resolve(&c, &encode(wisp, &[(golem, 2), (fireball, 2)], 2)).unwrap();
    assert_eq!(tied.class, Class::Shaman);
    let ahead = resolve(&c, &encode(wisp, &[(golem, 2), (fireball, 3)], 2)).unwrap();
    assert_eq!(ahead.class, Class::Mage);
    // Nothing but neutral cards names no class.
    let none = resolve(&c, &encode(wisp, &[(wisp, 2)], 2));
    assert_eq!(none.err(), Some(ResolveError::NoClass));
    let bad = resolve(&c, "not a code at all");
    assert_eq!(bad.err(), Some(ResolveError::Code(CodeError::NoCode)));
}

#[test]
fn a_format_byte_we_cannot_build_a_pool_for_is_none_not_standard() {
    assert_eq!(format_of(4), None);
    assert_eq!(format_of(3), None);
    assert_eq!(format_of(0), None);
    assert_eq!(format_of(1), Some(WILD));
    assert_eq!(format_of(2), Some(STANDARD));
}

#[test]
fn what_cannot_go_in_a_deck_is_named_apart() {
    let c = corpus();
    let hero = by_name(&c, "Jaina Proudmoore").unwrap().info(&c).dbf;
    let power = by_name(&c, "Lesser Heal").unwrap().info(&c).dbf;
    let fireball = by_name(&c, "Fireball").unwrap().info(&c).dbf;
    let wisp = by_name(&c, "Wisp").unwrap().info(&c).dbf;
    let code = encode(hero, &[(power, 1), (wisp, 2), (power, 2), (fireball, 1)], 1);
    let r = resolve(&c, &code).unwrap();
    assert_eq!(r.not_deckable, vec!["Lesser Heal"]);
    assert!(!r.playable());
    // Sorted by name, each slot with its copies.
    assert_eq!(r.cards, vec![("Fireball", 1), ("Wisp", 2)]);
}

#[test]
fn beatrix_runs_her_sideboard_as_ten_copies() {
    let c = corpus();
    let dbf = |name: &str| by_name(&c, name).unwrap().info(&c).dbf;
    let (hero, beatrix, wisp) = (dbf("Jaina Proudmoore"), dbf("Commander Beatrix"), dbf("Wisp"));
    for (main, copies) in [(beatrix, 10), (dbf("Fireball"), 1)] {
        // One card, and a sideboard of one copy of another that it owns.
        let mut bytes = Vec::new();
        for n in [0, 1, 2, 1, hero, 1, main, 0, 0, 1, 1, wisp, main, 0, 0] {
            tavernlab::deckstring::varint::put_varint(&mut bytes, n);
        }
        let code = tavernlab::deckstring::b64_encode(&bytes);
        let d = decode(&code).unwrap();
        assert_eq!(d.sideboards, vec![(wisp, 1, main)]);
        let r = resolve(&c, &code).unwrap();
        assert!(r.cards.contains(&("Wisp", copies)));
        assert_eq!(r.total(), 1 + copies);
    }
}

// ------------------------------------------------------------------ agent

/// What a score is worth in points, as the policy's style sees it.
fn points(style: Style, s: Score) -> f32 {
    let face = style.face_tenths() as f32 / 10.0;
    match s {
        Score::Never => f32::MIN,
        Score::Points { quarters } => quarters as f32 / 4.0,
        Score::Body { quarters, body } => quarters as f32 / 4.0 + body as f32 * 0.3,
        Score::Face { atk } => 20.0 + atk as f32 * face,
        Score::Swing { quarters, counter } => quarters as f32 / 4.0 - counter as f32 * 0.8,
    }
}

/// The same as a number that orders the same way.
fn key(style: Style, s: Score) -> i64 {
    let bits = points(style, s).to_bits() as i32;
    (if bits < 0 { i32::MIN.wrapping_sub(bits) } else { bits }) as i64
}

fn summon(c: &Corpus, name: &str) -> Permanent {
    let card = by_name(c, name).unwrap();
    let d = card.def(c);
    Permanent {
        card,
        atk: d.atk,
        max_health: d.hp,
        damage: 0,
        spell_damage: d.spell_damage as i16,
        keywords: d.keywords,
        races: d.races,
        active: true,
        dormant: false,
        used: false,
        cooldown: 0,
        granted_rattle: None,
    }
}

fn in_hand(c: &Corpus, name: &str) -> HandCard {
    let card = by_name(c, name).unwrap();
    HandCard { card, atk: 0, hp: 0, cost_delta: 0, cost: card.def(c).cost, saw_opponent_card: false }
}

fn equip(c: &Corpus, name: &str) -> Weapon {
    let card = by_name(c, name).unwrap();
    Weapon { card, atk: card.def(c).atk, durability: card.def(c).dur }
}

fn player(c: &Corpus, board: &[&str], harms: bool) -> Player {
    Player {
        hero_hp: 30,
        armor: 0,
        hero_attack: 0,
        mana: 10,
        crystals: 10,
        overload_now: 0,
        rangers_played: 0,
        discovered_turn: false,
        schools_cast_turn: 0,
        schools_cast_last: 0,
        cards_played_not_from_deck: 0,
        spell_damage_turn: 0,
        kindred: Races(0),
        hero_power: HeroPower { card: by_name(c, "Lesser Heal").unwrap(), harms },
        second_hero_power: None,
        weapon: None,
        board: board.iter().map(|n| summon(c, n)).collect(),
        hand: Vec::new(),
        deck: Vec::new(),
    }
}

fn game_with(c: &Corpus, board_me: &[&str], board_foe: &[&str]) -> Game {
    Game {
        first: player(c, board_me, true),
        second: player(c, board_foe, true),
        current: Side::Player0,
        outcome: None,
        deaths_this_turn: 0,
        targetable: vec![Target::Hero(Side::Player0), Target::Hero(Side::Player1)],
        limits: Limits { board: 7, hand: 10, deck: 60 },
    }
}

fn copy_player(p: &Player) -> Player {
    Player {
        hero_hp: p.hero_hp,
        armor: p.armor,
        hero_attack: p.hero_attack,
        mana: p.mana,
        crystals: p.crystals,
        overload_now: p.overload_now,
        rangers_played: p.rangers_played,
        discovered_turn: p.discovered_turn,
        schools_cast_turn: p.schools_cast_turn,
        schools_cast_last: p.schools_cast_last,
        cards_played_not_from_deck: p.cards_played_not_from_deck,
        spell_damage_turn: p.spell_damage_turn,
        kindred: p.kindred,
        hero_power: p.hero_power,
        second_hero_power: p.second_hero_power,
        weapon: p.weapon,
        board: p.board.clone(),
        hand: p.hand.clone(),
        deck: p.deck.clone(),
    }
}

fn copy_game(g: &Game) -> Game {
    Game {
        first: copy_player(&g.first),
        second: copy_player(&g.second),
        current: g.current,
        outcome: g.outcome,
        deaths_this_turn: g.deaths_this_turn,
        targetable: g.targetable.clone(),
        limits: g.limits,
    }
}

/// Every attack of the player to move, and the end of the turn.
fn attacks(g: &Game) -> Vec<Action> {
    let mut out = Vec::new();
    let (me, foe) = (g.player(g.current), g.current.other());
    let mut targets = vec![Target::Hero(foe)];
    for i in 0..g.player(foe).board.len() {
        targets.push(Target::Minion(foe, i as u8));
    }
    for from in 0..me.board.len() {
        for t in &targets {
            out.push(Action::Attack { from: from as u8, target: *t });
        }
    }
    if me.hero_attack > 0 {
        for t in &targets {
            out.push(Action::HeroAttack { target: *t });
        }
    }
    out.push(Action::EndTurn);
    out
}

fn pick(c: &Corpus, a: Scripted, g: &Game, legal: &[Action]) -> Action {
    a.choose_action(c, g, legal, &|s| key(a.style, s), &|_: &Game, _: Action| None)
}

fn score(c: &Corpus, a: Scripted, g: &Game, action: Action) -> f32 {
    points(a.style, a.score(c, g, action))
}

#[test]
fn lethal_beats_everything_else() {
    let c = corpus();
    let mut g = game_with(&c, &["Wolfrider"], &[]); // 3/1 Charge
    g.second.hero_hp = 3;
    let legal = attacks(&g);
    let a = Scripted::new(Style::Control);
    assert_eq!(
        pick(&c, a, &g, &legal),
        Action::Attack { from: 0, target: Target::Hero(Side::Player1) }
    );
}

#[test]
fn a_pointless_suicide_trade_is_rejected() {
    // 3/1 into a 6/7: kills nothing, loses the attacker. Ending the turn has
    // to score higher.
    let c = corpus();
    let g = game_with(&c, &["Wolfrider"], &["Boulderfist Ogre"]);
    let a = Scripted::new(Style::Control);
    let attack = Action::Attack { from: 0, target: Target::Minion(Side::Player1, 0) };
    assert!(score(&c, a, &g, attack) < score(&c, a, &g, Action::EndTurn));
}

#[test]
fn a_favourable_trade_is_taken() {
    // 3/1 Charge into a 3/1: both die, but the exchange is even in stats and
    // removes a threat, so it beats passing.
    let c = corpus();
    let g = game_with(&c, &["Wolfrider"], &["Wolfrider"]);
    let a = Scripted::new(Style::Control);
    let attack = Action::Attack { from: 0, target: Target::Minion(Side::Player1, 0) };
    assert!(score(&c, a, &g, attack) > score(&c, a, &g, Action::EndTurn));
}

#[test]
fn aggro_values_face_more_than_control_does() {
    let c = corpus();
    let g = game_with(&c, &["Wolfrider"], &[]);
    let face = Action::Attack { from: 0, target: Target::Hero(Side::Player1) };
    let aggro = score(&c, Scripted::new(Style::Aggro), &g, face);
    let control = score(&c, Scripted::new(Style::Control), &g, face);
    assert!(aggro > control);
    assert_eq!(aggro, 20.0 + 3.0 * 1.4);
    assert_eq!(control, 20.0 + 3.0 * 0.5);
}

#[test]
fn the_hero_never_swings_into_its_own_death() {
    let c = corpus();
    let mut g = game_with(&c, &[], &["Boulderfist Ogre"]); // 6/7
    g.first.hero_hp = 5;
    g.first.weapon = Some(equip(&c, "Fiery War Axe"));
    g.first.hero_attack = 3;
    let a = Scripted::new(Style::Aggro);
    let swing = Action::HeroAttack { target: Target::Minion(Side::Player1, 0) };
    assert_eq!(score(&c, a, &g, swing), f32::MIN);
    let legal = attacks(&g);
    assert!(legal.contains(&swing));
    assert_ne!(pick(&c, a, &g, &legal), swing);
}

#[test]
fn hero_power_never_targets_your_own_board() {
    let c = corpus();
    let g = game_with(&c, &["Bloodfen Raptor"], &[]);
    let a = Scripted::new(Style::Midrange);
    let own = Action::HeroPower { target: Some(Target::Minion(Side::Player0, 0)), second: false };
    assert!(score(&c, a, &g, own) < score(&c, a, &g, Action::EndTurn));
}

#[test]
fn a_harming_hero_power_never_points_at_your_own_face() {
    let c = corpus();
    let g = game_with(&c, &[], &[]);
    let a = Scripted::new(Style::Midrange);
    let at = |side| Action::HeroPower { target: Some(Target::Hero(side)), second: false };
    assert!(
        score(&c, a, &g, at(Side::Player1)) > score(&c, a, &g, at(Side::Player0)),
        "Fireblast goes at them, not at you"
    );
    assert!(score(&c, a, &g, at(Side::Player0)) < score(&c, a, &g, Action::EndTurn));
}

#[test]
fn a_healing_hero_power_never_points_at_theirs() {
    let c = corpus();
    let mut g = game_with(&c, &[], &[]);
    let heal = by_name(&c, "Lesser Heal").expect("the corpus has Lesser Heal");
    g.first.hero_power = HeroPower { card: heal, harms: false };
    g.second.hero_power = HeroPower { card: heal, harms: false };
    let a = Scripted::new(Style::Midrange);
    let at = |side| Action::HeroPower { target: Some(Target::Hero(side)), second: false };
    assert!(
        score(&c, a, &g, at(Side::Player0)) > score(&c, a, &g, at(Side::Player1)),
        "Lesser Heal goes at you, not at them"
    );
}

#[test]
fn a_second_copy_of_the_weapon_you_are_wearing_is_not_played() {
    let c = corpus();
    let mut g = game_with(&c, &[], &[]);
    g.first.hand.push(in_hand(&c, "Corpse Cannon"));
    g.first.hand.push(in_hand(&c, "Corpse Cannon"));
    let a = Scripted::new(Style::Midrange);
    let play = |hand| Action::Play { hand, target: None, position: u8::MAX, choice: u8::MAX };
    assert!(
        score(&c, a, &g, play(0)) > score(&c, a, &g, Action::EndTurn),
        "with no weapon on, equipping is the right play"
    );

    g.first.weapon = Some(equip(&c, "Corpse Cannon"));
    assert!(
        score(&c, a, &g, play(0)) < score(&c, a, &g, Action::EndTurn),
        "with the same weapon already on, it is a strict loss"
    );
}

#[test]
fn a_better_weapon_still_replaces_a_worse_one() {
    let c = corpus();
    let mut g = game_with(&c, &[], &[]);
    g.first.hand.push(in_hand(&c, "Arcanite Reaper"));
    g.first.weapon = Some(equip(&c, "Fiery War Axe"));
    let a = Scripted::new(Style::Midrange);
    let play = Action::Play { hand: 0, target: None, position: u8::MAX, choice: u8::MAX };
    assert!(
        score(&c, a, &g, play) > score(&c, a, &g, Action::EndTurn),
        "ten damage over six is an upgrade, and the swap is worth it"
    );
    assert_eq!(score(&c, a, &g, play), 50.0);
}

#[test]
fn choose_is_deterministic() {
    let c = corpus();
    let g = game_with(&c, &["Wolfrider", "Bloodfen Raptor"], &["Goldshire Footman"]);
    let legal = attacks(&g);
    let a = Scripted::new(Style::Midrange);
    let first = pick(&c, a, &g, &legal);
    for _ in 0..10 {
        assert_eq!(pick(&c, a, &g, &legal), first);
    }
}

#[test]
fn score_for_reads_the_outcome_from_each_side() {
    let half = |o, s| score_for(o, s) as f32 / 2.0;
    assert_eq!(half(Outcome::Win(Side::Player0), Side::Player0), 1.0);
    assert_eq!(half(Outcome::Win(Side::Player0), Side::Player1), 0.0);
    assert_eq!(half(Outcome::Draw, Side::Player0), 0.5);
}

#[test]
fn scores_are_exact() {
    let c = corpus();
    let mut g = game_with(&c, &["Wolfrider"], &["Wolfrider", "Wisp"]);
    let a = Scripted::new(Style::Midrange);
    // 15 + 1.5 * 4 - 4.
    let trade = Action::Attack { from: 0, target: Target::Minion(Side::Player1, 0) };
    assert_eq!(score(&c, a, &g, trade), 17.0);
    // A ghost target is never taken, nor a ghost attacker.
    let ghost = Action::Attack { from: 0, target: Target::Minion(Side::Player1, 9) };
    assert_eq!(a.score(&c, &g, ghost), Score::Never);
    assert_eq!(a.score(&c, &g, Action::Attack { from: 3, target: Target::Hero(Side::Player1) }), Score::Never);
    // A minion: 40 + 2 * 4 + 0.3 * 9.
    g.first.hand.push(in_hand(&c, "Chillwind Yeti"));
    let play = Action::Play { hand: 0, target: None, position: 0, choice: 0 };
    assert_eq!(a.score(&c, &g, play), Score::Body { quarters: 192, body: 9 });
    assert_eq!(score(&c, a, &g, play), 48.0 + 9.0 * 0.3);
    assert_eq!(a.score(&c, &g, Action::Play { hand: 7, target: None, position: 0, choice: 0 }), Score::Never);
    // A hero power that finishes something, and one that does not.
    let ping = |slot| Action::HeroPower { target: Some(Target::Minion(Side::Player1, slot)), second: false };
    assert_eq!(score(&c, a, &g, ping(1)), 25.0);
    g.second.board[0].max_health = 5;
    assert_eq!(score(&c, a, &g, ping(0)), 7.0);
    assert_eq!(score(&c, a, &g, Action::HeroPower { target: None, second: true }), 5.0);
    assert_eq!(score(&c, a, &g, Action::UseLocation { slot: 0, target: None }), 30.0);
    assert_eq!(score(&c, a, &g, Action::Prepare { hand: 0 }), 3.0);
    assert_eq!(score(&c, a, &g, Action::EndTurn), 1.0);
    // The hero swings at a minion and takes damage back.
    g.first.hero_attack = 4;
    let swing = Action::HeroAttack { target: Target::Minion(Side::Player1, 1) };
    assert_eq!(score(&c, a, &g, swing), 15.0 + 1.5 * 2.0 - 0.8);
}

#[test]
fn trading_is_for_cards_that_are_stuck() {
    let c = corpus();
    let mut g = game_with(&c, &[], &[]);
    let a = Scripted::new(Style::Midrange);
    g.first.hand.push(in_hand(&c, "Wrath"));
    g.first.hand.push(in_hand(&c, "Fireball"));
    g.first.hand.push(in_hand(&c, "Boulderfist Ogre"));
    let trade = |hand| Action::Trade { hand };
    // Fireball has two faces to point at; nothing in sight takes it away.
    assert_eq!(score(&c, a, &g, trade(1)), 2.0);
    g.targetable.clear();
    assert_eq!(score(&c, a, &g, trade(1)), 12.0);
    assert_eq!(score(&c, a, &g, trade(2)), 2.0);
    g.first.mana = 5;
    assert_eq!(score(&c, a, &g, trade(2)), 4.0);
    assert_eq!(a.score(&c, &g, trade(9)), Score::Never);
}

#[test]
fn a_spell_that_would_burn_its_own_caster_goes_elsewhere() {
    let c = corpus();
    let mut g = game_with(&c, &[], &[]);
    g.first.hand.push(in_hand(&c, "Fireball"));
    let a = Scripted::new(Style::Midrange);
    let at = |side| Action::Play { hand: 0, target: Some(Target::Hero(side)), position: 0, choice: 0 };
    // Six damage to whatever hero the action points at.
    let burn = |g: &Game, action: Action| {
        let mut h = copy_game(g);
        if let Action::Play { target: Some(Target::Hero(s)), .. } = action {
            let p = h.player_mut(s);
            p.hero_hp -= 6;
        }
        Some(h)
    };
    let weigh = |s| key(Style::Midrange, s);
    let own = at(Side::Player0);
    let theirs = at(Side::Player1);
    assert!(self_harming_play(&burn, &c, &g, own));
    assert!(!self_harming_play(&burn, &c, &g, theirs));
    assert!(harms(&burn, &g, theirs, Target::Hero(Side::Player1)));
    assert!(!harms(&burn, &g, own, Target::Minion(Side::Player1, 0)));
    // Both score alike and the first would win.
    assert_eq!(a.choose_action(&c, &g, &[own, theirs, Action::EndTurn], &weigh, &burn), theirs);
    // With nothing better, the turn ends.
    let other = Action::Play { hand: 0, target: Some(Target::Hero(Side::Player0)), position: 1, choice: 0 };
    assert_eq!(a.choose_action(&c, &g, &[own, other], &weigh, &burn), Action::EndTurn);
    // An action that cannot be played harms nothing.
    let stuck = |_: &Game, _: Action| -> Option<Game> { None };
    assert_eq!(a.choose_action(&c, &g, &[own, theirs], &weigh, &stuck), own);
    assert!(could_hit_an_enemy(TargetSpec::AnyCharacter));
    assert!(!could_hit_an_enemy(TargetSpec::FriendlyCharacter));
}

#[test]
fn the_mulligan_keeps_what_is_cheap() {
    let c = corpus();
    let drawn: Vec<CardId> = ["Wisp", "Boulderfist Ogre", "Wolfrider", "Frostbolt"]
        .iter()
        .map(|n| by_name(&c, n).unwrap())
        .collect();
    assert_eq!(Scripted::new(Style::Aggro).mulligan(&c, &drawn), 0b1001);
    assert_eq!(Scripted::new(Style::Midrange).mulligan(&c, &drawn), 0b1101);
    assert_eq!(Scripted::new(Style::Control).mulligan(&c, &[]), 0);
}

#[test]
fn a_minions_worth_counts_its_keywords() {
    let c = corpus();
    let mut m = summon(&c, "Boulderfist Ogre");
    assert_eq!(minion_value(&m), 26);
    m.damage = 3;
    assert_eq!(minion_value(&m), 20);
    m.keywords = Keywords(
        Keywords::TAUNT
            | Keywords::DIVINE_SHIELD
            | Keywords::LIFESTEAL
            | Keywords::POISONOUS
            | Keywords::WINDFURY
            | Keywords::DEATHRATTLE,
    );
    m.spell_damage = 2;
    // 10 + 1 + (3 + 1) + 1 + 2 + 3 + 1 + 2 points.
    assert_eq!(minion_value(&m), 48);
}

#[test]
fn a_position_is_worth_its_parts() {
    let c = corpus();
    let mut g = game_with(&c, &["Wolfrider"], &["Wisp"]);
    // 4 - 2 + 15 - 15 + 2.5 points.
    assert_eq!(position_value(&c, &g, Side::Player0), 18);
    g.first.hand.push(in_hand(&c, "Boulderfist Ogre"));
    assert_eq!(position_value(&c, &g, Side::Player0), 18 + 4 + 6);
    g.first.weapon = Some(equip(&c, "Arcanite Reaper"));
    g.second.weapon = Some(equip(&c, "Fiery War Axe"));
    assert_eq!(position_value(&c, &g, Side::Player0), 28 + 20 - 12);
    g.first.board[0].active = false;
    assert_eq!(position_value(&c, &g, Side::Player0), 28 + 20 - 12 - 16);
    g.outcome = Some(Outcome::Win(Side::Player1));
    assert_eq!(position_value(&c, &g, Side::Player0), -2000);
    assert_eq!(position_value(&c, &g, Side::Player1), 2000);
    g.outcome = Some(Outcome::Draw);
    assert_eq!(position_value(&c, &g, Side::Player0), 0);
}

// ---------------------------------------------------------------- targets

#[test]
fn a_requirement_accepts_what_it_asks_for() {
    let c = corpus();
    let mut g = game_with(&c, &["Bloodfen Raptor", "Wisp"], &["Goldshire Footman", "Boulderfist Ogre"]);
    g.second.board[1].damage = 2;
    let me = Side::Player0;
    let foe = Side::Player1;
    let own_beast = Target::Minion(me, 0);
    let own_wisp = Target::Minion(me, 1);
    let taunt = Target::Minion(foe, 0);
    let hurt = Target::Minion(foe, 1);
    let faces = [Target::Hero(me), Target::Hero(foe)];
    let every = [faces[0], faces[1], own_beast, own_wisp, taunt, hurt, Target::Minion(foe, 7)];
    let accepted = |spec: TargetSpec, g: &Game| -> Vec<Target> {
        every.iter().copied().filter(|t| spec.matches(&c, g, me, *t)).collect()
    };
    assert_eq!(accepted(TargetSpec::NoTarget, &g), vec![]);
    assert_eq!(
        accepted(TargetSpec::AnyCharacter, &g),
        vec![faces[0], faces[1], own_beast, own_wisp, taunt, hurt]
    );
    assert_eq!(accepted(TargetSpec::AnyMinion, &g), vec![own_beast, own_wisp, taunt, hurt]);
    assert_eq!(accepted(TargetSpec::EnemyMinion, &g), vec![taunt, hurt]);
    assert_eq!(accepted(TargetSpec::FriendlyMinion, &g), vec![own_beast, own_wisp]);
    assert_eq!(accepted(TargetSpec::EnemyCharacter, &g), vec![faces[1], taunt, hurt]);
    assert_eq!(accepted(TargetSpec::FriendlyCharacter, &g), vec![faces[0], own_beast, own_wisp]);
    assert_eq!(accepted(TargetSpec::MinionAtkAtMost(1), &g), vec![own_wisp, taunt]);
    assert_eq!(accepted(TargetSpec::MinionAtkAtLeast(3), &g), vec![own_beast, hurt]);
    assert_eq!(accepted(TargetSpec::DamagedEnemyMinion, &g), vec![hurt]);
    assert_eq!(accepted(TargetSpec::DamagedMinion, &g), vec![hurt]);
    assert_eq!(accepted(TargetSpec::UndamagedMinion, &g), vec![own_beast, own_wisp, taunt]);
    assert_eq!(accepted(TargetSpec::FriendlyBeast, &g), vec![own_beast]);
    assert_eq!(accepted(TargetSpec::LegendaryMinion, &g), vec![]);
    assert_eq!(accepted(TargetSpec::EnemyMinionWithRace, &g), vec![]);
    assert_eq!(accepted(TargetSpec::EnemyTaunt, &g), vec![taunt]);
    assert_eq!(accepted(TargetSpec::FriendlyLocation, &g), vec![]);
    // Stealth hides from the opponent, Elusive from everyone, and a dormant
    // body from every requirement.
    g.second.board[0].keywords.insert(Keywords(Keywords::STEALTH));
    g.first.board[0].keywords.insert(Keywords(Keywords::STEALTH));
    g.first.board[1].keywords.insert(Keywords(Keywords::ELUSIVE));
    g.second.board[1].active = false;
    assert_eq!(accepted(TargetSpec::AnyMinion, &g), vec![own_beast]);
    // A Location is a target for one requirement only.
    g.first.board[1].card = by_name(&c, "Nespirah, Enthralled").unwrap();
    assert_eq!(accepted(TargetSpec::FriendlyLocation, &g), vec![own_wisp]);
    g.first.board[0].card = by_name(&c, "Old Legend").unwrap();
    g.second.board[0].keywords = Keywords(0);
    g.second.board[0].races = Races(Races::MURLOC);
    assert_eq!(accepted(TargetSpec::LegendaryMinion, &g), vec![own_beast]);
    assert_eq!(accepted(TargetSpec::EnemyMinionWithRace, &g), vec![taunt]);
    assert!(!TargetSpec::NoTarget.needed());
    assert!(TargetSpec::FriendlyBeast.needed());
}

#[test]
fn circumstances_start_out_bare() {
    let bare = Ctx::bare(CardId(3), Side::Player1);
    assert_eq!((bare.card, bare.side, bare.target, bare.source), (CardId(3), Side::Player1, None, None));
    assert!(!bare.outcast && !bare.centre && bare.dying.is_none() && bare.mana_spent == 0);
    let aimed = Ctx::at(CardId(3), Side::Player1, Some(Target::Hero(Side::Player0)));
    assert_eq!(aimed, Ctx { target: Some(Target::Hero(Side::Player0)), ..bare });
}

#[test]
fn auras_reach_whom_they_reach() {
    let c = corpus();
    let beast = summon(&c, "Bloodfen Raptor");
    let wisp = summon(&c, "Wisp");
    let (a, b) = (Side::Player0, Side::Player1);
    let others = Aura::Others(1, 1);
    assert_eq!(others.grants(a, 0, a, 2, &wisp), (1, 1));
    assert_eq!(others.grants(a, 2, a, 2, &wisp), (0, 0));
    assert_eq!(others.grants(a, 0, b, 2, &wisp), (0, 0));
    let wolves = Aura::OthersOfRace(Races::BEAST, 1, 0);
    assert_eq!(wolves.grants(a, 0, a, 2, &beast), (1, 0));
    assert_eq!(wolves.grants(a, 0, a, 2, &wisp), (0, 0));
    let neighbours = Aura::Neighbours(2, 0);
    assert_eq!(neighbours.grants(a, 3, a, 2, &wisp), (2, 0));
    assert_eq!(neighbours.grants(a, 3, a, 4, &wisp), (2, 0));
    assert_eq!(neighbours.grants(a, 3, a, 5, &wisp), (0, 0));
    assert_eq!(neighbours.grants(a, 3, b, 4, &wisp), (0, 0));
}

#[test]
fn bonuses_hold_while_their_condition_does() {
    let c = corpus();
    let mut g = game_with(&c, &["Wisp", "Bloodfen Raptor"], &[]);
    let me = Side::Player0;
    let mut body = summon(&c, "Wisp");
    let grants = |b: Bonus, g: &Game, m: &Permanent| b.grants(&c, g, me, m);
    assert_eq!(grants(Bonus::Damaged(3), &g, &body), (0, 0));
    body.damage = 1;
    assert_eq!(grants(Bonus::Damaged(3), &g, &body), (3, 0));
    assert_eq!(grants(Bonus::OpponentsTurn(2), &g, &body), (0, 0));
    g.current = Side::Player1;
    assert_eq!(grants(Bonus::OpponentsTurn(2), &g, &body), (2, 0));
    assert_eq!(grants(Bonus::ControlsRace(Races::BEAST, 2), &g, &body), (2, 0));
    assert_eq!(grants(Bonus::ControlsRace(Races::MECHANICAL, 2), &g, &body), (0, 0));
    assert_eq!(grants(Bonus::Alone(2), &g, &body), (0, 0));
    g.first.board[1].active = false;
    assert_eq!(grants(Bonus::Alone(2), &g, &body), (2, 0));
    assert_eq!(grants(Bonus::Armed(2), &g, &body), (0, 0));
    g.first.weapon = Some(equip(&c, "Fiery War Axe"));
    assert_eq!(grants(Bonus::Armed(2), &g, &body), (2, 0));
    assert_eq!(grants(Bonus::ControlsLocation(3), &g, &body), (0, 0));
    g.first.board[0].card = by_name(&c, "Nespirah, Enthralled").unwrap();
    assert_eq!(grants(Bonus::ControlsLocation(3), &g, &body), (3, 0));
    assert_eq!(grants(Bonus::Overloaded(1), &g, &body), (0, 0));
    g.first.overload_now = 1;
    assert_eq!(grants(Bonus::Overloaded(1), &g, &body), (1, 0));
    let filler = DeckCard { card: by_name(&c, "Wisp").unwrap() };
    g.first.deck = vec![filler; 24];
    assert_eq!(grants(Bonus::DeckAtLeast(25, 5), &g, &body), (0, 0));
    g.first.deck.push(filler);
    assert_eq!(grants(Bonus::DeckAtLeast(25, 5), &g, &body), (5, 0));
}

#[test]
fn costs_follow_the_position() {
    let c = corpus();
    let me = Side::Player0;
    let mut g = game_with(&c, &[], &[]);
    let at = |f: CostFn, g: &Game, i: usize| f.delta(&c, g, me, i);
    assert_eq!(at(CostFn::EmptyBoards(-3), &g, 0), -3);
    assert_eq!(at(CostFn::OtherCards, &g, 0), 0);
    for name in ["Wisp", "Frostbolt", "Fireball"] {
        g.first.hand.push(in_hand(&c, name));
    }
    assert_eq!(at(CostFn::OtherCards, &g, 0), -2);
    assert_eq!(at(CostFn::Outcast(-2), &g, 0), -2);
    assert_eq!(at(CostFn::Outcast(-2), &g, 1), 0);
    assert_eq!(at(CostFn::Outcast(-2), &g, 2), -2);
    let raptor = in_hand(&c, "Bloodfen Raptor");
    g.first.hand.push(raptor);
    assert_eq!(at(CostFn::HoldingRace(Races::BEAST, -3), &g, 0), -3);
    assert_eq!(at(CostFn::HoldingRace(Races::BEAST, -3), &g, 3), 0);
    assert_eq!(at(CostFn::Kindred(Races::DRAGON, -2), &g, 0), 0);
    g.first.kindred = Races(Races::DRAGON);
    assert_eq!(at(CostFn::Kindred(Races::DRAGON, -2), &g, 0), -2);
    g.deaths_this_turn = 4;
    assert_eq!(at(CostFn::DeathsThisTurn, &g, 0), -4);
    assert_eq!(at(CostFn::SawOpponentCard, &g, 2), 0);
    g.first.hand[2].saw_opponent_card = true;
    assert_eq!(at(CostFn::SawOpponentCard, &g, 2), -3);
    assert_eq!(at(CostFn::SawOpponentCard, &g, 9), 0);
    assert_eq!(at(CostFn::WeaponAttack, &g, 0), 0);
    g.first.weapon = Some(equip(&c, "Arcanite Reaper"));
    assert_eq!(at(CostFn::WeaponAttack, &g, 0), -5);
    assert_eq!(at(CostFn::Discovered(-3), &g, 0), 0);
    g.first.discovered_turn = true;
    assert_eq!(at(CostFn::Discovered(-3), &g, 0), -3);
    g.first.hand.push(in_hand(&c, "The Coin"));
    g.first.hand.push(in_hand(&c, "The Coin"));
    assert_eq!(at(CostFn::CoinsHeld, &g, 0), -2);
    g.first.board.push(summon(&c, "Wisp"));
    assert_eq!(at(CostFn::EmptyBoards(-3), &g, 0), 0);
    assert_eq!(at(CostFn::ControlsLegendary(-4), &g, 0), 0);
    g.first.board.push(summon(&c, "Old Legend"));
    assert_eq!(at(CostFn::ControlsLegendary(-4), &g, 0), -4);
    // Holy and Shadow both have to have been cast.
    g.first.schools_cast_turn = 1 << (School::Holy as u8);
    assert_eq!(at(CostFn::CastThisTurn(0b1010_0000, -5), &g, 0), 0);
    g.first.schools_cast_turn |= 1 << (School::Shadow as u8);
    assert_eq!(at(CostFn::CastThisTurn(0b1010_0000, -5), &g, 0), -5);
    assert_eq!(at(CostFn::CastLastTurn(0b0010_0000, -2), &g, 0), 0);
    g.first.schools_cast_last = 1 << (School::Holy as u8);
    assert_eq!(at(CostFn::CastLastTurn(0b0010_0000, -2), &g, 0), -2);
    g.first.deck = vec![DeckCard { card: raptor.card }; 25];
    assert_eq!(at(CostFn::DeckAtLeast(25, -2), &g, 0), -2);
    assert_eq!(at(CostFn::DeckAtLeast(26, -2), &g, 0), 0);
    assert_eq!(at(CostFn::EnemyMinions, &g, 0), 0);
    g.second.board.push(summon(&c, "Wisp"));
    assert_eq!(at(CostFn::EnemyMinions, &g, 0), -1);
    assert_eq!(at(CostFn::AnyDormant(-4), &g, 0), 0);
    g.second.board[0].dormant = true;
    assert_eq!(at(CostFn::AnyDormant(-4), &g, 0), -4);
    g.first.cards_played_not_from_deck = 6;
    assert_eq!(at(CostFn::NotFromDeck, &g, 0), -6);
    g.first.spell_damage_turn = 7;
    assert_eq!(at(CostFn::SpellDamage, &g, 0), -7);
}

// ---------------------------------------------------------------- effects

#[test]
fn the_costliest_card_is_discarded_the_last_of_equals() {
    let c = corpus();
    let mut g = game_with(&c, &[], &[]);
    assert_eq!(discard_costliest(&c, &mut g, Side::Player0), None);
    for name in ["Wisp", "Chillwind Yeti", "Fireball", "Wolfrider"] {
        g.first.hand.push(in_hand(&c, name));
    }
    let fireball = by_name(&c, "Fireball").unwrap();
    assert_eq!(discard_costliest(&c, &mut g, Side::Player0), Some(fireball));
    let left: Vec<&str> = g.first.hand.iter().map(|h| h.card.name(&c)).collect();
    assert_eq!(left, ["Wisp", "Chillwind Yeti", "Wolfrider"]);
    assert!(g.second.hand.is_empty());
}

#[test]
fn empowering_one_location_destroys_the_other_wherever_they_are() {
    let c = corpus();
    let [well, well_up, zin, zin_up] = AZSHARA.map(|id| token(&c, id));
    let wisp = by_name(&c, "Wisp").unwrap();
    for (picks_zin, keep, into, drop) in [(true, zin, zin_up, well), (false, well, well_up, zin)] {
        let mut g = game_with(&c, &["Wisp", "Wisp", "Wisp"], &[]);
        g.first.board[0].card = keep;
        g.first.board[2].card = drop;
        g.first.hand = vec![in_hand(&c, "Wisp"), in_hand(&c, "Wisp"), in_hand(&c, "Wisp")];
        g.first.hand[1].card = keep;
        g.first.hand[1].atk = 4;
        g.first.hand[2].card = drop;
        g.first.deck = vec![DeckCard { card: drop }, DeckCard { card: keep }, DeckCard { card: wisp }];
        let transform = |mut g: Game, t: Target, card: CardId| {
            if let Target::Minion(s, i) = t {
                g.player_mut(s).board[i as usize].card = card;
            }
            g
        };
        let destroy = |mut g: Game, t: Target| {
            if let Target::Minion(s, i) = t {
                g.player_mut(s).board[i as usize].active = false;
            }
            g
        };
        let sweep = |mut g: Game| {
            g.first.board.retain(|m| m.active);
            g
        };
        let out = empower(&c, g, Side::Player0, picks_zin, &transform, &destroy, &sweep);
        let board: Vec<CardId> = out.first.board.iter().map(|m| m.card).collect();
        assert_eq!(board, vec![into, wisp]);
        let hand: Vec<CardId> = out.first.hand.iter().map(|h| h.card).collect();
        assert_eq!(hand, vec![wisp, into]);
        assert_eq!(out.first.hand[1].atk, 4);
        let deck: Vec<CardId> = out.first.deck.iter().map(|d| d.card).collect();
        assert_eq!(deck, vec![into, wisp]);
    }
}

#[test]
fn the_next_age_keeps_the_durability_that_is_left() {
    let c = corpus();
    let next = by_name(&c, "Wolfrider").unwrap();
    let transform = |mut g: Game, t: Target, card: CardId| {
        if let Target::Minion(s, i) = t {
            let m = &mut g.player_mut(s).board[i as usize];
            m.card = card;
            m.damage = 0;
        }
        g
    };
    let mut g = game_with(&c, &["Wisp"], &[]);
    g.first.board[0].damage = 2;
    let ctx = Ctx { source: Some(0), ..Ctx::bare(next, Side::Player0) };
    let out = advance_gnomeregan(g, &ctx, next, &transform);
    let m = &out.first.board[0];
    assert_eq!((m.card, m.damage, m.used, m.cooldown), (next, 2, true, 1));
    // No source, no change.
    let g = game_with(&c, &["Wisp"], &[]);
    let out = advance_gnomeregan(g, &Ctx::bare(next, Side::Player0), next, &transform);
    assert_ne!(out.first.board[0].card, next);
}

#[test]
fn a_granted_rattle_goes_to_the_minion_pointed_at() {
    let c = corpus();
    let carrier = by_name(&c, "Spikeridged Steed").unwrap();
    let mut g = game_with(&c, &["Wisp", "Wisp"], &[]);
    grant_rattle(&mut g, Some(Target::Minion(Side::Player0, 1)), carrier);
    assert_eq!(g.first.board[0].granted_rattle, None);
    assert_eq!(g.first.board[1].granted_rattle, Some(carrier));
    grant_rattle(&mut g, Some(Target::Hero(Side::Player0)), carrier);
    grant_rattle(&mut g, None, carrier);
    grant_rattle(&mut g, Some(Target::Minion(Side::Player1, 0)), carrier);
    assert_eq!(g.first.board[0].granted_rattle, None);
}

#[test]
fn a_cannoneer_fires_armed_and_twice() {
    let c = corpus();
    let random = |g: Game, side: Side| (g, Some(Target::Hero(side.other())));
    let deal = |mut g: Game, t: Target, n: i16| {
        if let Target::Hero(s) = t {
            g.player_mut(s).hero_hp -= n;
        }
        g
    };
    let g = game_with(&c, &["Wisp"], &[]);
    assert_eq!(pirate_damage_bonus(&c, &g, Side::Player0), 0);
    assert_eq!(fire_one(&c, g, Side::Player0, &random, &deal).second.hero_hp, 29);
    let g = game_with(&c, &["Blastpowder Engineer", "Captain Crowley", "Blastpowder Engineer"], &[]);
    assert_eq!(pirate_damage_bonus(&c, &g, Side::Player0), 2);
    assert_eq!(pirate_damage_bonus(&c, &g, Side::Player1), 0);
    assert_eq!(fire_one(&c, g, Side::Player0, &random, &deal).second.hero_hp, 24);
    // On the other player's turn the Engineers do not arm.
    let mut g = game_with(&c, &["Blastpowder Engineer"], &[]);
    g.current = Side::Player1;
    assert_eq!(fire_one(&c, g, Side::Player0, &random, &deal).second.hero_hp, 29);
    let nobody = |g: Game, _: Side| (g, None);
    let g = game_with(&c, &["Captain Crowley"], &[]);
    assert_eq!(fire_one(&c, g, Side::Player0, &nobody, &deal).second.hero_hp, 30);
}

#[test]
fn a_deck_is_asked_for_neutral_cards() {
    let c = corpus();
    let mut g = game_with(&c, &[], &[]);
    g.first.deck.push(DeckCard { card: by_name(&c, "Fireball").unwrap() });
    assert!(!deck_has_neutrals(&c, &g, Side::Player0));
    g.first.deck.push(DeckCard { card: by_name(&c, "Wisp").unwrap() });
    assert!(deck_has_neutrals(&c, &g, Side::Player0));
    assert!(!deck_has_neutrals(&c, &g, Side::Player1));
}

#[test]
fn a_deathrattle_minion_comes_two_cheaper() {
    let c = corpus();
    let thalnos = by_name(&c, "Bloodmage Thalnos").unwrap();
    let wisp = by_name(&c, "Wisp").unwrap();
    assert!(deathrattle_minions().takes(thalnos.def(&c)));
    assert!(!deathrattle_minions().takes(wisp.def(&c)));
    assert_eq!(
        deathrattle_minions(),
        Wanted { kind: Kind::Minion, keywords: Keywords(Keywords::DEATHRATTLE) }
    );
    // Hands out the last of the cards that it is asked for.
    let hand_out = |mut g: Game, side: Side, wanted: Wanted| {
        let mut added = false;
        for name in ["Bloodmage Thalnos", "Wisp"] {
            if wanted.takes(by_name(&c, name).unwrap().def(&c)) {
                g.player_mut(side).hand.push(in_hand(&c, name));
                added = true;
            }
        }
        (g, added)
    };
    let mut g = game_with(&c, &[], &[]);
    g.first.hand.push(in_hand(&c, "Wisp"));
    let out = deathrattle_minion_to_hand(g, Side::Player0, &hand_out);
    assert_eq!(out.first.hand.len(), 2);
    assert_eq!(out.first.hand[0].cost_delta, 0);
    assert_eq!(out.first.hand[1].card, thalnos);
    assert_eq!(out.first.hand[1].cost_delta, -2);
    let full = |g: Game, _: Side, _: Wanted| (g, false);
    let mut g = game_with(&c, &[], &[]);
    g.first.hand.push(in_hand(&c, "Wisp"));
    let out = deathrattle_minion_to_hand(g, Side::Player0, &full);
    assert_eq!(out.first.hand[0].cost_delta, 0);
}

#[test]
fn a_cataclysm_is_weighed_by_the_position() {
    let c = corpus();
    let [reign, topple, raze] = CATACLYSMS.map(|id| token(&c, id));
    let enthrall = by_name(&c, "Fireball").unwrap();
    let mut g = game_with(&c, &["Wisp"], &["Boulderfist Ogre", "Wisp", "Chillwind Yeti"]);
    let me = Side::Player0;
    // The Ogre and the Yeti live through four damage, the Wisp does not.
    assert_eq!(cataclysm_score(&c, &g, me, raze), 5);
    assert_eq!(cataclysm_score(&c, &g, me, topple), 7);
    assert_eq!(cataclysm_score(&c, &g, me, reign), 6);
    assert_eq!(cataclysm_score(&c, &g, me, enthrall), 2);
    g.second.board[0].active = false;
    assert_eq!(cataclysm_score(&c, &g, me, topple), 5);
    g.second.board.clear();
    assert_eq!(cataclysm_score(&c, &g, me, topple), 0);
    assert_eq!(cataclysm_score(&c, &g, me, raze), 0);
    g.limits.board = 1;
    assert_eq!(cataclysm_score(&c, &g, me, reign), 0);
}

#[test]
fn azalina_doubles_the_deck_from_the_enemys() {
    let c = corpus();
    let azalina = by_name(&c, "Azalina Soulsever").unwrap();
    let wisp = by_name(&c, "Wisp").unwrap();
    let yeti = by_name(&c, "Chillwind Yeti").unwrap();
    let draw = |k: usize, n: usize| k % n;
    let mut g = game_with(&c, &[], &[]);
    g.first.deck = vec![DeckCard { card: wisp }; 20];
    g.second.deck = vec![DeckCard { card: wisp }, DeckCard { card: yeti }];
    apply_game_setup(&c, &mut g, Side::Player0, &draw);
    assert_eq!((g.first.hero_hp, g.first.deck.len()), (30, 20));
    g.first.deck[3] = DeckCard { card: azalina };
    apply_game_setup(&c, &mut g, Side::Player0, &draw);
    assert_eq!((g.first.hero_hp, g.first.deck.len()), (40, 40));
    assert_eq!(g.first.deck[20].card, wisp);
    assert_eq!(g.first.deck[21].card, yeti);
    assert_eq!(g.second.deck.len(), 2);
    // Only as far as there is room.
    g.limits.deck = 45;
    azalina_setup(&mut g, Side::Player0, &draw);
    assert_eq!(g.first.deck.len(), 45);
    // An enemy without a deck has nothing to copy.
    g.second.deck.clear();
    g.first.deck.clear();
    azalina_setup(&mut g, Side::Player0, &draw);
    assert_eq!((g.first.hero_hp, g.first.deck.len()), (40, 0));
}

#[test]
fn the_windrunners_count_their_sisters() {
    let c = corpus();
    let [sylvanas, alleria, vereesa] = WINDRUNNERS.map(|id| token(&c, id));
    assert_eq!(windrunner_bit(&c, sylvanas), Some(1));
    assert_eq!(windrunner_bit(&c, alleria), Some(2));
    assert_eq!(windrunner_bit(&c, vereesa), Some(4));
    assert_eq!(windrunner_bit(&c, by_name(&c, "Wisp").unwrap()), None);
    let mut g = game_with(&c, &[], &[]);
    g.first.rangers_played = 0b011;
    assert_eq!(windrunner_sisters(&c, &g, Side::Player0, sylvanas), 1);
    assert_eq!(windrunner_sisters(&c, &g, Side::Player0, vereesa), 2);
    assert_eq!(windrunner_sisters(&c, &g, Side::Player1, vereesa), 0);
}

// ------------------------------------------------------------------ arena

/// Numbers that depend on a seed and their place alone.
fn rand(seed: u64, k: usize, n: usize) -> usize {
    let mut x = seed ^ (k as u64).wrapping_mul(0x9E37_79B9_7F4A_7C15);
    x ^= x >> 30;
    x = x.wrapping_mul(0xBF58_476D_1CE4_E5B9);
    x ^= x >> 27;
    x = x.wrapping_mul(0x94D0_49BB_1331_11EB);
    x ^= x >> 31;
    (x % n as u64) as usize
}

/// A stand-in for the evaluation: an average that depends on the contender's
/// cards and the game seed, against every deck of the field.
fn play(me: Contender<'_>, field: &[u8], _: usize, _: usize, seed: u64) -> Option<(u32, u64)> {
    let sum: u64 = me.cards.iter().map(|x| x.0 as u64).sum();
    Some((field.len() as u32, (sum.wrapping_mul(31) ^ seed) % 1000))
}

#[test]
fn candidates_share_their_tails_and_seeds() {
    let c = corpus();
    let picked: Vec<CardId> =
        ["Chillwind Yeti", "Fireball"].iter().map(|n| by_name(&c, n).unwrap()).collect();
    let candidate = by_name(&c, "Water Elemental").unwrap();
    let budget = PickBudget { tails: 2, games_per_deck: 4, threads: 1, seed: 7 };
    let run = || compare_picks(&c, Class::Mage, &picked, &[candidate], &[], &[1u8], &budget, &rand, &play).unwrap();
    let (a, b) = (run(), run());
    assert_eq!(a[0].averages, b[0].averages);
    assert_eq!(a[0].games, 8);
    assert_eq!(a[0].averages.len(), 2);
    assert_eq!(a[0].card, candidate);
    assert_eq!(a[0].real_cards, 3);
    assert!(a[0].extra.is_empty());
}

#[test]
fn a_full_draft_refuses_another_pick() {
    let c = corpus();
    let deck = curve_deck(&c, Class::Mage, ARENA).expect("arena deck");
    let candidate = by_name(&c, "Fireball").unwrap();
    let budget = PickBudget::default();
    let r = compare_picks(&c, Class::Mage, &deck, &[candidate], &[], &[1u8], &budget, &rand, &play);
    assert_eq!(r.err(), Some("the draft already holds a full deck"));
}

#[test]
fn a_corpus_without_a_season_pool_compares_nothing() {
    let mut prints = all_prints();
    for p in prints.iter_mut() {
        p.def.formats = Formats(p.def.formats.0 & !Formats::ARENA);
    }
    let c = Corpus::new(tables(prints), behaviours()).unwrap();
    let candidate = by_name(&c, "Fireball").unwrap();
    let budget = PickBudget::default();
    let r = compare_picks(&c, Class::Mage, &[], &[candidate], &[], &[1u8], &budget, &rand, &play);
    assert_eq!(r.err(), Some("the corpus carries no Arena season pool"));
}

#[test]
fn a_legendary_group_sits_in_the_deck_before_the_tail() {
    let c = corpus();
    let picked: Vec<CardId> = Vec::new();
    let candidate = by_name(&c, "Fireball").unwrap();
    let extra = vec![by_name(&c, "Chillwind Yeti").unwrap()];
    let pool = implemented_pool(&c, Class::Mage, ARENA);
    let deck = fill(&picked, candidate, &extra, &pool, &rand, 1);
    assert_eq!(deck[0], candidate);
    assert_eq!(deck[1], extra[0]);
    assert_eq!(deck.len(), DECK_SIZE);
    assert!(deck[2..].iter().all(|x| pool.contains(x)));
}

#[test]
fn two_copies_are_the_cap_until_the_pool_is_too_shallow() {
    let c = corpus();
    let candidate = by_name(&c, "Fireball").unwrap();
    let pool = implemented_pool(&c, Class::Mage, ARENA);
    let deck = fill(&[], candidate, &[], &pool, &rand, 5);
    for x in &deck {
        assert!(deck.iter().filter(|y| *y == x).count() <= 2);
    }
    // One card is all there is: the cap yields rather than loops.
    let one = [by_name(&c, "Wisp").unwrap()];
    let deck = fill(&[], candidate, &[], &one, &rand, 5);
    assert_eq!(deck.len(), DECK_SIZE);
    assert!(deck[1..].iter().all(|x| *x == one[0]));
    // What was picked is never cut.
    let many = vec![candidate; 33];
    assert_eq!(fill(&many, one[0], &[], &[], &rand, 5).len(), 33);
}

#[test]
fn tails_and_games_are_counted() {
    let c = corpus();
    let fireball = by_name(&c, "Fireball").unwrap();
    let yeti = by_name(&c, "Chillwind Yeti").unwrap();
    let budget = PickBudget { tails: 3, games_per_deck: 5, threads: 1, seed: 9 };
    // The first tail's game seed cannot be played.
    let sometimes = |_: Contender<'_>, field: &[u8], _: usize, _: usize, seed: u64| {
        if seed == 9 {
            None
        } else {
            Some((field.len() as u32, seed))
        }
    };
    let field = [1u8, 2];
    let groups = [vec![yeti, yeti]];
    let picks = [fireball, yeti];
    let scores =
        compare_picks(&c, Class::Mage, &[], &picks, &groups, &field, &budget, &rand, &sometimes)
            .unwrap();
    assert_eq!(scores.len(), 2);
    assert_eq!(scores[0].averages, vec![10, 11]);
    assert_eq!(scores[0].games, 20);
    assert_eq!(scores[0].extra, vec![yeti, yeti]);
    assert_eq!(scores[0].real_cards, 3);
    assert_eq!(scores[1].real_cards, 1);
    // Equal candidates fare alike, and the last game seed may be the last
    // number there is.
    let budget = PickBudget { tails: 2, games_per_deck: 1, threads: 1, seed: u64::MAX - 1 };
    let twice =
        compare_picks(&c, Class::Mage, &[], &[yeti, fireball, yeti], &[], &[1u8], &budget, &rand, &play).unwrap();
    assert_eq!(twice[0].averages, twice[2].averages);
    assert_eq!(twice[0].games, twice[2].games);
    let never = |_: Contender<'_>, _: &[u8], _: usize, _: usize, _: u64| -> Option<(u32, u64)> {
        None
    };
    let none =
        compare_picks(&c, Class::Mage, &[], &[yeti], &[], &[1u8], &budget, &rand, &never).unwrap();
    assert_eq!((none[0].averages.len(), none[0].games), (0, 0));
    assert_eq!(PickBudget::default(), PickBudget { tails: 3, games_per_deck: 25, threads: 1, seed: 47 });
}

#[test]
fn a_completed_draft_meets_the_field_as_an_aggressive_deck() {
    let c = corpus();
    let yeti = by_name(&c, "Chillwind Yeti").unwrap();
    let fireball = by_name(&c, "Fireball").unwrap();
    let pool = implemented_pool(&c, Class::Mage, ARENA);
    let budget = PickBudget { tails: 2, games_per_deck: 6, threads: 3, seed: 21 };
    let asked = std::cell::RefCell::new(Vec::new());
    let play = |me: Contender<'_>, field: &[&str], games: usize, threads: usize, seed: u64| {
        asked.borrow_mut().push((me.class, me.style, me.cards.to_vec()));
        assert_eq!(field, ["one", "two"]);
        assert_eq!((games, threads), (6, 3));
        assert!(seed == 21 || seed == 22);
        Some((1, seed))
    };
    let scores =
        compare_picks(&c, Class::Mage, &[yeti], &[fireball], &[], &["one", "two"], &budget, &rand, &play)
            .unwrap();
    assert_eq!(scores[0].averages, vec![21, 22]);
    assert_eq!(scores[0].games, 12);
    let first = fill(&[yeti], fireball, &[], &pool, &rand, 21);
    let second = fill(&[yeti], fireball, &[], &pool, &rand, 21 ^ 0x9E37_79B9_7F4A_7C15);
    assert_eq!(
        asked.into_inner(),
        vec![(Class::Mage, Style::Aggro, first), (Class::Mage, Style::Aggro, second)]
    );
}

#[test]
fn rarities_are_ordered() {
    assert!(Rarity::Common < Rarity::Rare);
    assert!(Rarity::Rare < Rarity::Epic);
    assert_eq!(Rarity::Epic.max(Rarity::Legendary), Rarity::Legendary);
}
