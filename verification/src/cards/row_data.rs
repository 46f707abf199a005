//! The rows of the behaviour table, as data: names, targets and hooks.

use vstd::prelude::*;

verus! {

/// The names of the first rows.
pub const NAMES_A: [&'static str; 255] = [
    "The Coin", "Novice Engineer", "Gnomish Inventor", "Voodoo Doctor", "Elven Archer",
    "Ironbeak Owl", "Acidic Swamp Ooze", "Loot Hoarder", "Bloodmage Thalnos", "Harvest Golem",
    "Leper Gnome", "Fireball", "Frostbolt", "Arcane Explosion", "Flamestrike", "Arcane Intellect",
    "Arcane Missiles", "Frost Nova", "Polymorph", "Holy Smite", "Power Word: Shield", "Holy Nova",
    "Shadow Word: Pain", "Shadow Word: Death", "Moonfire", "Wild Growth", "Healing Touch",
    "Mark of the Wild", "Savage Roar", "Claw", "Swipe", "Shadow Bolt", "Hellfire", "Drain Life",
    "Dread Infernal", "Arcane Shot", "Multi-Shot", "Kill Command", "Houndmaster", "Backstab",
    "Sinister Strike", "Assassinate", "Sprint", "Fan of Knives", "Deadly Poison", "Frost Shock",
    "Rockbiter Weapon", "Bloodlust", "Hex", "Windfury", "Ancestral Healing", "Consecration",
    "Blessing of Kings", "Hammer of Wrath", "Holy Light", "Humility", "Hand of Protection",
    "Execute", "Cleave", "Whirlwind", "Shield Block", "Heroic Strike", "Frail Ghoul",
    "Healing Totem", "Strength Totem", "Acolyte of Pain", "Gurubashi Berserker",
    "Northshire Cleric", "Lightwarden", "Mana Wyrm", "Questing Adventurer", "Wild Pyromancer",
    "Knife Juggler", "Flesheating Ghoul", "Imp Master", "Stormwind Champion", "Raid Leader",
    "Timber Wolf", "Murloc Warleader", "Grimscale Oracle", "Southsea Captain", "Dire Wolf Alpha",
    "Flametongue Totem", "Counterspell", "Mirror Entity", "Ice Barrier", "Explosive Trap",
    "Vaporize", "Snake Trap", "Eye for an Eye", "Sanguine Depths", "Fan Club",
    "Cathedral of Atonement", "Dance Floor", "Castle Kennels", "Wrath", "Power of the Wild",
    "Mark of Nature", "Nourish", "Keeper of the Grove", "Ancient of War", "Eviscerate",
    "Cold Blood", "Shiv", "SI:7 Agent", "Defias Ringleader", "Edwin VanCleef", "Pyroblast",
    "Chaos Nova", "Volcanic Potion", "Flash Heal", "Regenerate", "Iron Hide", "Power Infusion",
    "Power Word: Tentacles", "Divine Strength", "Fire Elemental", "Fire Plume Phoenix",
    "North Sea Kraken", "Spring Rocket", "Blowgill Sniper", "Ironforge Rifleman",
    "Stormpike Commando", "Filletfighter", "Gadgetzan Socialite", "Earthen Ring Farseer",
    "Shroom Brewer", "Darkshire Alchemist", "Amber Watcher", "Shieldmaiden", "Big Ol' Whelp",
    "Runic Egg", "Polluted Hoarder", "Goblin Bomb", "Backstreet Leper", "Shadowed Spirit",
    "Naval Mine", "Kobold Sandtrooper", "Glacial Shard", "Rustrot Viper", "Prize Vendor",
    "The Curator", "Holy Eggbearer", "Press the Advantage", "Flash of Light", "Drain Soul",
    "Conflagrate", "Equality", "Shadow Word: Ruin", "Moonwell", "Innervate", "Sleet Storm",
    "Broxigar's Last Stand", "Arcane Flow", "Searing Fissure", "Arcane Barrage", "Fumigate",
    "Renewing Flames", "Drink Blood", "Twilight Timereaver", "Twilight Mistress",
    "V'ama, Looming Death", "Royal Librarian", "Mother Duck", "Darkscale Broodmother",
    "King Mukla", "Sizzling Cinder", "Lotus Bookie", "Living Flame", "Enduring Roach",
    "Petal Peddler", "Tower of Ghouls", "Gallagio Goon", "Felfire Blaze", "The Unseen Atlas",
    "Prescient Slitherdrake", "Pterrorwing Ravager", "Demonic Confinement", "Warden Maiev",
    "Ravasaur Matriarch", "Windpeak Wyrm", "Battlefiend", "Hench-Clan Thug", "Hookfist-3000",
    "Ursine Maul", "Command Claw", "Tracking", "Waveshaping", "Runed Orb", "Horn of Plenty",
    "Sands of Time", "The Skeleton Key", "Illidari Studies", "Odd Map", "Jeweled Macaw", "Watfin",
    "Nightmare Lord Xavius", "Staff of Trickery", "Conjured Bookkeeper", "Sawbones",
    "The Kingslayers", "Corpse Cannon", "Defias Smuggler", "Remnant of Rage", "Envoy of the End",
    "Skywall Sentinel", "Shadowsworn Disciple", "Maniacal Follower", "Rite of Twilight",
    "Shrine of Twilight", "Soldier of Sinestra", "Soldier of Azshara", "Soldier of Ragnaros",
    "Soldier of Cho'gall", "Soldier of Al'Akir", "Dragon's Reign", "Raze", "Topple", "Enthrall",
    "Deathwing, Worldbreaker", "Preparation", "Spider Rider", "Kaldorei Priestess", "Eye Beam",
    "Medivh the Hallowed", "Karazhan the Sanctum", "Infest the Scullery", "Lifebloom",
    "Amirdrassil", "Grim Harvest", "Wyvern's Slumber", "Infested Breath", "Insect Claw",
    "Horn of Feasting", "Wound Prey", "Endbringer Umbra", "Dissolving Ooze", "Falric",
    "Soulrest Ceremony", "Platysaur", "Ebb and Flow", "Mind Sweeper", "Unshackle Soul",
    "Cosmic Manifestations", "Briarspawn Drake", "Gorishi Wasp", "Murloc Tidehunter",
    "Animal Companion", "Sanguine Infestation", "Plated Beetle", "Mo'arg Forgefiend",
    "Body Bagger", "Bash", "Lightning Bolt", "Flame Imp",
];

/// The names of the second rows.
pub const NAMES_B: [&'static str; 255] = [
    "Frostbitten Imp", "Hand of A'dal", "Horn of Winter", "Anti-Magic Shell",
    "Crimson Sigil Runner", "Spectral Sight", "Netherwalker", "Battle Vicar", "Dark Peddler",
    "Fire Fly", "Violet Spellwing", "Contraband Wands", "Witch's Apprentice", "Carrier Whelp",
    "Caged Cranium", "Hijacked Securitybot", "Underbelly Network", "Gorishi Stinger",
    "Infestation", "Secret Ingredient", "Morbid Swarm", "Felwood Treant", "Archmage Kalec",
    "Tricksy Improviser", "Staff of the Endbringer", "Spiderling", "Guard Dog", "Earthen Roar",
    "Cower in Fear", "Judgment", "Twilight Egg", "Soothsayer", "Hardlight Protector",
    "Intertwined Fate", "Opu the Unseen", "Agent of the Old Ones", "Deja Vu", "Cultist Map",
    "Getaway Hogdriver", "Cursed Catacombs", "Eredar Deceptor", "Imp Gang Stooge", "Annihilation",
    "Brood Keeper", "Stadium Announcer", "Erupting Volcano", "Torch", "Darkrider",
    "Shadowflame Suffusion", "Soul Immolation", "Collapsing Star", "Dark Bribe",
    "Acceleration Aura", "Sigil of the Seas", "Rotten Apple", "Cult Neophyte", "Ursol",
    "Chainbreaker Hogger", "Mug'Zee", "King Llane", "Garona Halforcen", "Emergency Surgery",
    "Spire of Solitude", "The Food Chain", "Unleash the Colossus", "Storm the Gates",
    "The Egg of Khelos", "Reanimated Pterrordax", "Blood Doctor Thal'ena", "Shaladrassil",
    "Warptooth", "Elise the Navigator", "Bashana Runetotem", "Toreth the Unbreaking", "Tiny Pal",
    "Nightmare Fuel", "Dreambound Raptor", "The Fins Beyond Time", "Nespirah, Enthralled",
    "Godfrey the Betrayer", "Merithra of the Dream", "Naralex, Herald of the Flights",
    "Shadow of Demise", "Mirrex, the Crystalline", "Cursed Chains", "Irida Sinseeker",
    "Wickerfang", "Wickerfang's Leg", "Al'Akir, Lord of Storms", "Charged Hand of Al'Akir",
    "Sinestra", "Sinestra's Wing", "Ultraxion", "Atiesh the Greatstaff", "Broxigar",
    "Axe of Cenarius", "First Portal to Argus", "Second Portal to Argus", "Third Portal to Argus",
    "Final Portal to Argus", "Fleeing Ur'zul", "Fleeing Incubus", "Fleeing Wrathguard",
    "Fleeing Terrorguard", "Commander Beatrix", "Azalina Soulsever", "Slam", "Abusive Sergeant",
    "Beaming Sidekick", "Murloc Tidecaller", "Gnawing Greenfin", "Siphoning Growth",
    "Injured Tol'vir", "Crazed Alchemist", "Bloodsail Raider", "Maze Guide",
    "Unleash the Crocolisks", "Sunfury Protector", "P1CK-P0K3T", "Micro Machine",
    "Frothing Berserker", "Coldlight Seer", "Big Game Hunter", "Lifedrinker", "Twilight Drake",
    "Dread Corsair", "City Defenses", "Steadfast Security", "Eggbasher", "Icy Touch", "Doomsayer",
    "Plague Strike", "Harbinger of Winter", "Asphyxiate", "Chillfallen Baron",
    "Stonehill Defender", "Acolyte of Death", "Dark Transformation", "Poison Breath",
    "Static Shock", "Lightning Rod", "Thunderquake", "Lightning Storm", "Far Sight",
    "Voltaic Burst", "Cinderfin", "Mend", "Amber Priestess", "Purifying Breath",
    "Crystalsmith Cultist", "Injured Attendant", "Void Shard", "Cleansing Lightspawn",
    "Greater Healing Potion", "Devouring Plague", "Quick Shot", "Bursting Shot",
    "Headhunter's Hatchet", "Ticking Timebomb", "Arrow Retriever", "Spirit Bond",
    "Ball of Spiders", "Webspinner", "Herbivore Assistant", "Argent Protector",
    "Fogsail Freebooter", "Mad Bomber", "Brightwing", "Tranquil Treant", "Convalescence",
    "Silvermoon Portal", "Ancient Stegodon", "Barkshield Sentinel", "Holy Bola!",
    "Muster for Battle", "Skeletal Sidekick", "Timestop", "Howling Blast", "Deathchiller",
    "Reluctant Wrangler", "Cryofrozen Champion", "Bone Breaker", "Mortal Coil", "Spirit Bomb",
    "Vulgar Homunculus", "Fiendish Servant", "Gnomeferatu", "Emberroot Destroyer", "Siphon Soul",
    "Demonic Assault", "Blob of Tar", "Sporegnasher", "Taelan Fordring", "Doomguard",
    "First Flame", "Second Flame", "Cold Snap", "Divination", "Explosive Runes",
    "Winterspring Whelp", "Babbling Bookcase", "Scrappy Scavenger", "Living Roots", "Raven Idol",
    "Feral Rage", "Contingency", "Widow's Bite", "Widow's Feast", "Widow's Banquet",
    "Savage Striker", "Skyscreamer Eggs", "Longneck Egg", "The Black Knight", "Dirty Rat",
    "Netherspite Historian", "Gorillabot A-3", "Menagerie Mug", "Omen of the End",
    "Soldier of the Bronze", "Soldier of the Infinite", "Concealing Confection",
    "Willful Watcher", "Tindral Sageswift", "Critter Caretaker", "Daydreaming Pixie",
    "Curious Cumulus", "Earthen Drake", "Time Skipper", "Hatchery Helper", "Monstrous Mosquito",
    "Thassarian", "Death Strike", "Remorseless Winter", "Chaos Strike", "Felrattler",
    "Wrathspike Brute", "Immortalized in Stone", "Haunt", "Natalie Seline", "Story of Amara",
    "SI:7 Supplier", "Troubled Double", "Crazed Chemist", "Wailing Vapor", "Fire Breath",
    "Hammer of Twilight", "Rotheart Dryad", "Twisting Nether", "Sky Raider", "Ravaging Ghoul",
    "Ironforge Portal", "Guard Duty", "Cairne Bloodhoof", "Voidlord", "Mountain Bear",
];

/// The names of the third rows.
pub const NAMES_C: [&'static str; 255] = [
    "Eternal Bloodpetal", "Eternal Seedling", "Sneed's Old Shredder", "Drakeadon Mongrel",
    "Obsidian Statue", "Avatar of Destruction", "Sewer Imp", "Fae Trickster",
    "Tormented Dreadwing", "Seeding Dragon", "Twilight Mender", "Primordial Drake",
    "Nerubian Swarmguard", "Underking", "Heir of Hereafter", "Blizzard", "Ceremonial Clash",
    "Ward of Earth", "For All Time", "Forest's Gift", "Dethrone", "Nascent Bolt",
    "Eldritch Tentacles", "Yesterloc", "Scalebreaker Bulwark", "Gorishi Tunneler",
    "Axe of the Forefathers", "Aberrant Berserker", "Amani Berserker", "Angry Chicken",
    "Bloodhoof Brave", "Dozing Marksman", "Grommash Hellscream", "Redband Wasp", "Tauren Warrior",
    "Temple Berserker", "Undercover Cultist", "Warbot", "Tar Slime", "Tar Creeper", "Tar Lurker",
    "Tar Lord", "Tar Tyrant", "Cogmaster", "Proud Defender", "Small-Time Buccaneer",
    "Spine Crawler", "Surging Tempest", "Blood Tap", "Darkfallen Neophyte", "Hourglass Attendant",
    "Overlord Runthak", "Bone Flurry", "Liferender", "Endtime Survivor", "Crystal Tender",
    "Lorewalker Cho", "Chromatic Broodmother", "Photosynthesis", "Ymirjar Frostbreaker",
    "Nurturing Nature", "Release the Beasts", "Dimensional Weaponsmith", "Power Word: Barrier",
    "Dig for Freedom", "Threshrider's Blessing", "Lo'Gosh's Last Stand", "Amphibian's Spirit",
    "Sheep Mask", "Charity", "Priest of An'she", "Envoy of the Glade", "Hellraiser",
    "Storage Scuffle", "Unearthed Artifacts", "Diabolus Rex", "Unholy Frenzy",
    "Temporal Traveler", "Gnome Muncher", "High Cultist Herenn", "Mythical Terror",
    "Illidari Inquisitor", "TREEEES!!!", "Ankylodon", "Wilted Shadow", "Behemoth Mask",
    "Warmaul Challenger", "Rampaging Hound", "Spikeridged Steed", "Talanji's Last Stand", "Ulfar",
    "Living Spores", "Ancient Raptor", "Grimestreet Outfitter", "Disciple of the Dove",
    "Detonation Juggernaut", "I Know a Guy", "Twisted Treant", "Lethal Recipe",
    "Story of Barnabus", "Flight of the Firehawk", "Divine Augur", "Vicious Bloodworm",
    "Gruesome Nightmare", "Neferset Weaponsmith", "Eternal Toil", "Sheltered Survivor",
    "Timeless Causality", "Curious Explorer", "Cloud Serpent", "Relic Miner", "Chronicle Keeper",
    "Primal Sabretooth", "Synchronized Spark", "Wicked Blightspawn", "Wizened Truthseeker",
    "Activated Golem", "Bitter End", "Solitary Prisoner", "Witchwood Grizzly", "Scalehide Kodo",
    "Sentient Hourglass", "Chillmaw", "Ravenous Devilsaur", "Siamat", "Warmaster Blackhorn",
    "Disciple of Demise", "Black Market Auctioneer", "Krog, Crater King", "Bygone Echoes",
    "Finja, the Flying Star", "Stormbrewer", "Vanessa the Ringleader", "Keymaster Alabaster",
    "Zaqali Flamemancer", "Unknown Voyager", "Dangerous Variant", "Crater Experiment",
    "Steamfin Thief", "Bronze Keeper", "Battlefield Necromancer", "Death's Advance",
    "Corpse Farm", "Glacial Advance", "Corpse Flower", "Consumption", "Dread Raptor",
    "Grave Strength", "Lady Deathwhisper", "Malignant Horror", "Might of Menethil",
    "Obsessive Technician", "Army of the Dead", "Corpse Bride", "Hollow Direhorn",
    "Bonechill Stegodon", "Experimental Animation", "Marrow Manipulator", "Alexandros Mograine",
    "Story of Umbra", "Boneguard Commander", "Chow Down", "The Scourge", "Volcoross",
    "Ashleaf Pixie", "Mark of Ursol", "Scarlet Bruiser", "Vigilant Sentry", "Ready the Fleet",
    "Ivory Knight", "Lightmender", "Spearheart Sentry", "Arator the Redeemer",
    "Nozdormu, Bronze Aspect", "Scarlet Recruiter", "Searing Reflection", "Hero's Welcome",
    "Firegill", "Bronze Redeemer", "Mimicry", "Garona's Last Stand", "Jackpot!", "Silent Strike",
    "Web of Deception", "Deadly Bribe", "SI:7 Slayer", "Shaku, the Collector", "Tricky Satyr",
    "Mathias Shaw", "Waggle Pick", "Fast Forward", "Swashburglar", "Crystal Tusk",
    "Merchant of Legend", "Blackpaw's Whip", "Leokk", "Raptor-Nest Nurse", "Dinositter",
    "Freezing Trap", "Pressure Plate", "Rat Trap", "Augmented Porcupine", "Dragonbane",
    "Grace of the Greatwolf", "Mythical Runebear", "Wasteland Vanguard", "Sewer Swimmer",
    "Spiritspeaker", "Broll Bearmantle", "Tending Dragonkin", "Triennium Rex", "Magma Hound",
    "Shadow Rounds", "Ocular Occultist", "RAFAAM LADDER!!", "Possessed Animancer",
    "Sleep Paralysis", "Riftcleaver", "Asphyxiodon", "Archwitch Willow", "Bat Mask", "Chronogor",
    "Razidir", "Psychic Conjurer", "Shadow Ascendant", "Spirit of the Kaldorei",
    "Twilight Influence", "Weaver of the Cycle", "Specter Specialist", "Incensed Matriarch",
    "Lingering Spirit", "Medivh's Triumph", "Eternus", "Atlasaurus", "Ritual of Life", "Archaios",
    "Hold Them Off!", "Gladesong Siren", "Glade Ecologist", "Purifying Vines", "Holy Embrace",
    "Dark Embrace", "Mirror Dimension", "Spark of Life", "Scorching Winds", "Spire Security",
    "Astromancer", "Temporal Construct", "Sindragosa's Triumph", "Relic of Kings",
    "Inferno Herald", "Mystic Misdirection", "Ominous Nightmares", "Precursory Strike",
    "Stonecarver",
];

/// The names of the last rows.
pub const NAMES_D: [&'static str; 255] = [
    "Baleful Blazer", "Latorvian Armorer", "Cataclysmic War Axe", "Scorching Ravager",
    "Afflicted Devastator", "Nablya, the Watcher", "The Great Dracorex", "Undefeated Champion",
    "Tortolla", "Crowd Control", "For Glory!", "Scrappy Defender", "Gladiatorial Combat",
    "Blazing Invocation", "Flames of the Firelord", "Ritual of Power", "Emberscarred Whelp",
    "Lava Flow", "Chillspine Stegodon", "Mechanized Magma", "Rehgar Earthfury", "Slagclaw",
    "Spirits of the Forest", "Glaciate", "Sizzling Swarm", "Tortotem", "Sigil of Cinder",
    "Armored Bloodletter", "Nightmare Dragonkin", "Defiled Spear", "Scorchreaver", "Chronikar",
    "Flash Flood", "Priestess of Fury", "Perennial Serpent", "Dread Leviathan",
    "Malevolent Mutant", "Solitude", "Silithid Queen", "Charred Chameleon", "Crystalspine Cub",
    "Life Cycle", "Symbiosis", "Mossbinding", "Ravenous Flock", "Tranquil Clearing",
    "Commissary Crook", "Overheat", "Spiteful Chef", "Oaken Summons", "Boomkin",
    "Endangered Dodo", "Flipper Friends", "Voodoo Totem", "Selenic Drake", "Runaway Blackwing",
    "Iridescent Flitterwing", "Crystal Merchant", "Animated Moonwell", "Marshland Thresher",
    "Archmage Antonidas", "Veteran Warmedic", "Windswept Pageturner", "Rioter",
    "Black Market Overseer", "Bugsquasher", "Epoch Stalker", "Halazzi, the Lynx", "Coghammer",
    "Tankgineer", "Tirion Fordring", "Lightshower Elemental", "Sahket Sapper", "Stormbinder",
    "Ball and Chain", "Panther Mask", "Devilsaur Mask", "Call of the Wild", "Thief's Tools",
    "Healing Rain", "Typhoon", "Fortify", "Shellnado", "Memoriam Manifest", "Calia Menethil",
    "Resuscitate", "Undeath Sentence", "Merithra", "Aessina", "Ysondre", "Splintered Reality",
    "Succumb to Madness", "Truth Seeker", "Beanstalk Brute", "Kaldorei Cultivator", "Seismopod",
    "Supreme Dinomancy", "Azshara's Triumph", "City Chief Esho", "Krona, Keeper of Eons",
    "Steamcleaner", "Smuggled Shovel", "Dragonscale Armaments", "Dreamwarden",
    "Story of the Waygate", "Hexmarshal", "Acorn", "Shred of Time", "Found Gear!",
    "Tripped Arcane Tripwire", "Tripped Beast Tripwire", "Vibrant Squirrel",
    "Twilight Timehopper", "Scramble for Gear", "Arcane Tripwire", "Beast Tripwire",
    "Interrogation", "Illusory Greenwing", "Frantic Forger", "Tunnel Terror", "Bloodpetal Biome",
    "Spelunker", "Portal Vanguard", "Follow the Footsteps", "Tricks of the Trade",
    "Chef Neth'rek", "Heartroot Stones", "Lotus Troublemaker", "Jade Guardians", "Escape Artist",
    "Ebonscale Scout", "Ebyssian", "Supply Run", "Harsh Sentence", "Corrupt Constable",
    "Frame Job", "Godfather Kazakus", "Crate of Contraband", "Swill of Suggestibility",
    "Potion of Perjury", "Spurious Shiv", "Criminal Contract", "Tonic of Tyranny",
    "Convicted for Conspiracy", "Sentenced for Smuggling", "Detained for Destruction",
    "Cannoneer", "Cannonmaster", "Captain Crowley", "Hook n' Heave", "Land Ho!", "Hand Cannon",
    "Blastpowder Engineer", "Follow the Fuse", "Avant-Gardening", "Brutish Endmaw",
    "Creature of Madness", "Treacherous Tormentor", "Smoke Bomb", "Cremate", "Rite of Atrocity",
    "Shadowflame Stalker", "Cindersword", "Dragon Turtle", "Frostburn Matriarch",
    "Overgrown Horror", "Emerald Portal", "Bitterbloom Knight", "Flutterwing Guardian",
    "Jagged Edge of Time", "Lunarwing Messenger", "Umbraclaw", "Goldpetal Drake",
    "Aegis of Light", "Aspect's Embrace", "Eventuality", "Exotic Houndmaster", "Finality",
    "Living Garden", "Spirit Gatherer", "Wisprider", "Petal Picker", "Resplendent Dreamweaver",
    "Shadows of Yesterday", "Story of Galvadon", "Tyrannogill", "Stranglevine", "Violet Punisher",
    "Shadowed Informant", "Techysaurus", "Reach Equilibrium", "Sol'etos, Life's Breath",
    "Sol'etos, Death's Touch", "Sol'etos, Cycle's Rebirth", "Slime 'em!", "Ectoplasm",
    "Raith Van Geist", "Karov the Broken", "Gravedawn Sunbloom", "Ruby Sanctum", "Schism",
    "Void Soul", "Vicious Voidscale", "Void Blast", "Stardust Scythe", "Hive Map",
    "Chronological Aura", "Sandfury Aura", "Gnomish Aura", "Mekkatorque's Aura",
    "Gelbin of Tomorrow", "Manifested Timeways", "Flight Maneuvers", "Inspiring Maul",
    "Violet Treasuregill", "Past Gnomeregan", "Present Gnomeregan", "Future Gnomeregan",
    "Alter Time", "Morchie", "Q'onzu", "Raptor Herald", "Wanted Poster", "The Forbidden Sequence",
    "The Origin Stone", "Lady Azshara", "The Well of Eternity", "Zin-Azshari", "Welcome Home!",
    "Ysera, Emerald Aspect", "Ranger General Sylvanas", "Ranger Captain Alleria",
    "Ranger Initiate Vereesa", "Sylvanas's Triumph", "Confront the Tol'vir", "Niri of the Crater",
    "Rockskipper", "Rock", "Tame Pet", "Chronoclaws", "Gemstone Hoarder", "Precise Shot",
    "IMPFERNAL!", "Leyline Nexus", "Bursting Leyline", "Crystallized Leyline", "Mystic Runesaber",
    "Ley Walker", "Surge Needle", "The Arcanomicon", "Energize", "Unblock", "Empower",
    "Spellweaver's Brilliance", "Smoldering Grove",
];

/// What the first rows need pointed at.
pub const TARGETS_A: [u8; 255] = [
    0, 0, 0, 1, 1, 2, 0, 0, 0, 0, 0, 1, 1, 0, 0, 0, 0, 0, 2, 2, 2, 0, 7, 8, 1, 0, 1, 2, 0, 0, 5,
    2, 0, 1, 0, 1, 0, 1, 13, 12, 0, 3, 0, 0, 0, 5, 6, 0, 2, 2, 2, 0, 2, 1, 0, 2, 2, 10, 0, 0, 0,
    0, 0, 0, 0, 0, 0, 0, 0, 0, 0, 0, 0, 0, 0, 0, 0, 0, 0, 0, 0, 0, 0, 0, 0, 0, 0, 0, 0, 0, 2, 0,
    2, 0, 4, 0, 0, 0, 0, 0, 0, 1, 2, 1, 1, 0, 0, 1, 0, 0, 1, 1, 0, 2, 2, 2, 1, 1, 1, 1, 1, 1, 1,
    1, 1, 1, 1, 1, 1, 0, 0, 0, 0, 0, 0, 0, 0, 0, 5, 0, 0, 0, 0, 1, 1, 2, 2, 0, 0, 0, 0, 1, 0, 1,
    0, 5, 2, 0, 2, 0, 0, 0, 2, 0, 0, 0, 0, 0, 0, 0, 0, 0, 0, 0, 0, 0, 0, 2, 0, 3, 1, 0, 0, 0, 0,
    0, 0, 0, 1, 0, 0, 0, 0, 0, 0, 0, 0, 0, 0, 0, 0, 0, 4, 0, 0, 0, 0, 0, 0, 0, 0, 0, 0, 0, 0, 0,
    0, 0, 0, 0, 0, 0, 0, 2, 0, 0, 0, 0, 0, 0, 0, 1, 0, 0, 1, 0, 4, 0, 0, 0, 1, 0, 2, 1, 0, 0, 0,
    0, 0, 0, 0, 0, 1, 1, 0,
];

/// What the second rows need pointed at.
pub const TARGETS_B: [u8; 255] = [
    0, 2, 0, 0, 0, 0, 0, 0, 0, 0, 0, 0, 0, 0, 0, 0, 0, 1, 0, 0, 0, 0, 0, 0, 0, 0, 0, 3, 2, 4, 0,
    0, 0, 0, 0, 0, 0, 0, 0, 0, 0, 0, 0, 0, 0, 0, 10, 0, 1, 0, 0, 0, 0, 0, 0, 0, 0, 0, 0, 0, 0, 3,
    0, 0, 0, 0, 0, 0, 0, 0, 0, 0, 0, 0, 0, 0, 0, 0, 5, 0, 0, 0, 0, 0, 3, 0, 0, 0, 0, 0, 0, 0, 0,
    0, 0, 0, 0, 0, 0, 0, 0, 0, 0, 0, 0, 0, 2, 2, 4, 0, 0, 4, 0, 2, 0, 0, 0, 0, 0, 0, 0, 0, 9, 0,
    0, 0, 0, 0, 2, 5, 0, 2, 0, 0, 0, 0, 0, 4, 4, 2, 4, 0, 0, 0, 0, 0, 2, 1, 2, 0, 0, 1, 3, 6, 0,
    1, 0, 0, 0, 0, 2, 0, 0, 4, 4, 0, 0, 0, 0, 0, 2, 0, 0, 0, 0, 4, 0, 5, 0, 0, 0, 0, 2, 2, 0, 0,
    0, 0, 2, 0, 0, 0, 0, 0, 2, 2, 5, 4, 0, 0, 0, 0, 0, 0, 0, 0, 0, 0, 0, 3, 0, 0, 16, 0, 0, 0, 0,
    0, 0, 0, 0, 0, 0, 0, 0, 0, 0, 0, 0, 0, 0, 2, 0, 0, 0, 0, 0, 2, 2, 0, 0, 0, 4, 0, 1, 0, 0, 0,
    0, 0, 0, 0, 0, 0, 0,
];

/// What the third rows need pointed at.
pub const TARGETS_C: [u8; 255] = [
    0, 0, 0, 0, 0, 0, 0, 0, 0, 0, 0, 0, 0, 0, 0, 0, 0, 0, 0, 4, 2, 2, 0, 0, 0, 0, 0, 0, 0, 0, 0,
    0, 0, 0, 0, 0, 0, 0, 0, 0, 0, 0, 0, 0, 0, 0, 0, 0, 0, 0, 0, 0, 0, 3, 0, 0, 0, 0, 1, 0, 13, 0,
    0, 1, 4, 4, 2, 2, 2, 0, 0, 0, 0, 2, 0, 0, 3, 0, 0, 0, 0, 0, 2, 0, 0, 2, 3, 0, 4, 0, 0, 0, 0,
    0, 0, 0, 0, 0, 0, 0, 0, 0, 0, 0, 0, 2, 0, 0, 0, 0, 0, 0, 0, 5, 0, 0, 0, 2, 0, 0, 0, 0, 0, 2,
    0, 0, 0, 0, 0, 0, 0, 0, 0, 0, 0, 0, 0, 0, 0, 0, 0, 1, 0, 1, 0, 0, 0, 0, 0, 0, 0, 0, 0, 0, 0,
    0, 0, 0, 0, 0, 0, 0, 0, 0, 0, 2, 0, 0, 4, 0, 0, 0, 0, 0, 0, 0, 0, 0, 0, 0, 14, 0, 2, 4, 2, 0,
    0, 0, 0, 0, 0, 0, 0, 0, 0, 0, 0, 0, 0, 0, 0, 0, 0, 0, 0, 0, 0, 0, 0, 0, 0, 0, 3, 0, 0, 0, 0,
    2, 0, 0, 4, 0, 0, 0, 0, 0, 0, 1, 4, 0, 0, 0, 3, 0, 0, 0, 2, 0, 0, 2, 1, 1, 0, 0, 1, 0, 0, 3,
    2, 0, 0, 0, 0, 1, 0,
];

/// What the last rows need pointed at.
pub const TARGETS_D: [u8; 255] = [
    2, 3, 0, 0, 0, 0, 0, 0, 0, 0, 0, 0, 0, 0, 0, 0, 0, 0, 0, 0, 0, 0, 0, 0, 1, 0, 0, 0, 0, 0, 0,
    0, 0, 0, 0, 3, 0, 0, 0, 4, 0, 2, 0, 0, 0, 2, 0, 0, 0, 0, 0, 0, 0, 0, 0, 0, 0, 0, 0, 0, 0, 0,
    0, 0, 0, 15, 0, 0, 0, 0, 0, 0, 0, 0, 0, 2, 2, 0, 0, 0, 0, 3, 0, 0, 0, 0, 0, 0, 0, 0, 0, 0, 0,
    0, 0, 0, 0, 0, 0, 0, 0, 0, 0, 0, 0, 0, 0, 0, 0, 0, 0, 0, 0, 0, 0, 0, 0, 0, 0, 0, 0, 0, 0, 0,
    1, 0, 0, 0, 0, 0, 1, 0, 0, 0, 0, 0, 0, 0, 0, 0, 0, 0, 0, 0, 0, 0, 0, 0, 0, 0, 0, 0, 0, 0, 0,
    0, 0, 0, 0, 0, 0, 0, 0, 0, 0, 0, 0, 0, 0, 0, 0, 0, 0, 0, 1, 1, 0, 0, 0, 0, 0, 0, 2, 0, 2, 0,
    0, 3, 0, 0, 0, 0, 0, 0, 0, 0, 0, 0, 0, 0, 4, 0, 0, 2, 0, 0, 0, 0, 0, 0, 0, 0, 0, 0, 0, 2, 2,
    2, 0, 0, 0, 0, 0, 0, 0, 0, 0, 4, 17, 0, 0, 0, 0, 1, 0, 0, 0, 1, 0, 0, 0, 1, 0, 0, 0, 0, 0, 0,
    0, 0, 0, 0, 0, 0, 0,
];

/// Which hooks with an effect of their own the first rows have, as bits.
pub const HOOKS_A: [u16; 255] = [
    1, 2, 2, 2, 2, 2, 2, 4, 4, 4, 4, 1, 1, 1, 1, 1, 1, 1, 1, 1, 1, 1, 1, 1, 1, 1, 1, 1, 1, 1, 1,
    1, 1, 1, 2, 1, 1, 1, 2, 1, 1, 1, 1, 1, 1, 1, 1, 1, 1, 1, 1, 1, 1, 1, 1, 1, 1, 1, 1, 1, 1, 1,
    8, 8, 8, 8, 8, 8, 8, 8, 8, 8, 8, 8, 8, 0, 0, 0, 0, 0, 0, 0, 0, 64, 64, 64, 64, 64, 64, 64, 1,
    1, 1, 1, 1, 256, 256, 256, 256, 256, 256, 1, 1, 1, 2, 2, 2, 1, 1, 1, 1, 1, 1, 1, 1, 1, 2, 2,
    2, 2, 2, 2, 2, 2, 2, 2, 2, 2, 2, 2, 2, 4, 4, 4, 4, 4, 4, 4, 2, 2, 6, 2, 2, 1, 1, 1, 1, 1, 1,
    1, 1, 1, 1, 1, 1, 1, 1, 1, 1, 256, 2, 2, 2, 2, 2, 2, 4, 4, 4, 8, 8, 8, 8, 8, 1, 0, 0, 1, 8, 2,
    2, 8, 8, 8, 8, 8, 1, 1, 1, 1, 1, 1, 1, 1, 2, 2, 2, 8, 4, 2, 8, 8, 2, 2, 2, 2, 6, 4, 1, 1, 2,
    2, 4, 8, 0, 1, 1, 1, 1, 2, 1, 8, 2, 1, 2, 1, 1, 1, 1, 1, 256, 1, 8, 1, 1, 2, 2, 2, 1, 6, 1, 2,
    1, 1, 8, 8, 2, 1, 1, 4, 4, 2, 1, 1, 2,
];

/// Which hooks with an effect of their own the second rows have, as bits.
pub const HOOKS_B: [u16; 255] = [
    2, 1, 1, 1, 2, 1, 2, 2, 2, 2, 4, 1, 2, 2, 2, 2, 1, 1, 1, 256, 256, 2, 2, 2, 4, 8, 4, 1, 1, 1,
    12, 4, 2, 1, 6, 2, 1, 1, 2, 1, 8, 4, 1, 2, 2, 1, 1, 2, 1, 1, 8, 1, 1, 1, 1, 2, 2, 512, 512,
    514, 2, 1, 1, 8, 8, 8, 4, 0, 2, 1, 0, 0, 2, 0, 8, 1, 8, 2, 13, 512, 2, 0, 1, 0, 1, 2, 2, 8, 2,
    0, 2, 8, 2, 0, 512, 8, 1, 1, 1, 1, 4, 4, 4, 4, 512, 2, 1, 2, 2, 8, 2, 1, 2, 2, 2, 2, 1, 2, 2,
    8, 8, 2, 2, 2, 2, 0, 1, 8, 2, 1, 8, 1, 4, 1, 6, 2, 8, 1, 1, 1, 1, 1, 1, 1, 1, 4, 1, 2, 1, 2,
    2, 1, 2, 1, 1, 1, 1, 2, 4, 2, 1, 1, 4, 2, 2, 2, 2, 2, 4, 1, 1, 256, 8, 1, 1, 2, 1, 1, 8, 4, 4,
    8, 1, 1, 2, 4, 2, 8, 1, 1, 4, 4, 4, 2, 1, 1, 1, 1, 64, 2, 2, 2, 256, 256, 256, 1, 1, 1, 1, 2,
    4, 4, 2, 2, 2, 2, 2, 2, 2, 2, 4, 4, 4, 8, 8, 8, 8, 8, 2, 8, 6, 1, 1, 1, 4, 8, 1, 1, 2, 1, 8,
    2, 2, 8, 1, 4, 4, 1, 2, 2, 1, 1, 4, 4, 4,
];

/// Which hooks with an effect of their own the third rows have, as bits.
pub const HOOKS_C: [u16; 255] = [
    4, 4, 4, 4, 4, 4, 4, 4, 4, 4, 4, 2, 2, 6, 2, 1, 1, 1, 1, 1, 1, 1, 1, 8, 8, 8, 8, 0, 0, 0, 0,
    0, 0, 0, 0, 0, 0, 0, 0, 0, 0, 0, 0, 0, 0, 0, 0, 0, 1, 2, 8, 8, 1, 2, 2, 2, 8, 8, 1, 2, 1, 1,
    2, 1, 5, 5, 5, 5, 5, 1, 2, 2, 2, 1, 1, 2, 1, 4, 8, 2, 8, 8, 1, 4, 8, 1, 2, 2, 5, 5, 6, 4, 256,
    2, 2, 2, 1, 4, 1, 1, 1, 2, 2, 2, 2, 1, 2, 2, 4, 2, 2, 2, 8, 1, 4, 2, 8, 1, 0, 2, 2, 8, 4, 2,
    2, 2, 2, 8, 8, 1, 8, 8, 8, 8, 2, 8, 8, 2, 2, 8, 8, 1, 1, 1, 8, 1, 2, 1, 4, 8, 2, 2, 1, 2, 8,
    4, 1, 2, 2, 1, 2, 1, 1, 2, 2, 1, 4, 2, 1, 2, 256, 8, 2, 8, 2, 1, 1, 2, 8, 1, 1, 1, 1, 1, 1, 8,
    8, 2, 8, 4, 1, 2, 6, 2, 4, 0, 6, 8, 64, 64, 64, 4, 8, 256, 2, 2, 2, 2, 8, 2, 6, 8, 1, 2, 1, 4,
    256, 2, 8, 2, 1, 2, 2, 2, 8, 2, 256, 2, 2, 8, 4, 1, 2, 4, 1, 8, 1, 0, 4, 1, 1, 1, 1, 256, 1,
    2, 2, 2, 1, 1, 8, 64, 256, 1, 8,
];

/// Which hooks with an effect of their own the last rows have, as bits.
pub const HOOKS_D: [u16; 255] = [
    2, 2, 2, 2, 6, 2, 8, 2, 8, 1, 1, 0, 1, 1, 1, 1, 2, 1, 2, 8, 8, 2, 256, 1, 1, 8, 1, 2, 4, 8, 2,
    2, 1, 8, 0, 2, 2, 1, 2, 2, 8, 1, 1, 1, 1, 1, 2, 1, 2, 1, 256, 2, 256, 8, 8, 8, 8, 8, 8, 8, 8,
    8, 8, 8, 8, 2, 2, 2, 2, 4, 4, 4, 4, 4, 4, 1, 1, 1, 1, 1, 1, 1, 1, 1, 2, 1, 1, 2, 2, 4, 1, 1,
    8, 2, 2, 4, 1, 1, 2, 2, 2, 4, 1, 2, 1, 2, 1, 1, 1, 1, 1, 4, 2, 1, 1, 1, 1, 4, 2, 4, 1, 2, 2,
    1, 1, 512, 1, 2, 1, 8, 2, 2, 1, 1, 2, 1, 2, 1, 1, 1, 1, 1, 1, 1, 1, 1, 8, 2, 2, 1, 1, 8, 0, 1,
    1, 2, 2, 2, 1, 1, 1, 2, 2, 2, 2, 2, 1, 2, 2, 2, 2, 4, 6, 1, 1, 1, 2, 1, 2, 2, 2, 2, 2, 1, 1,
    4, 4, 2, 2, 0, 8, 2, 4, 6, 1, 1, 2, 4, 1, 1, 1, 1, 4, 1, 8, 1, 1, 1, 1, 1, 2, 2, 1, 4, 2, 1,
    1, 1, 1, 2, 2, 2, 1, 8, 8, 256, 1, 1, 1, 514, 2, 2, 2, 1, 1, 8, 2, 1, 1, 8, 6, 1, 4, 1, 1, 1,
    2, 6, 2, 256, 1, 1, 1, 1, 1,
];

/// The rows that have an aura.
pub const AURA_ROWS: [u16; 10] = [
    75, 76, 77, 78, 79, 80, 81, 82, 214, 705,
];

/// Whether each reaches all others, those of a tribe, or its neighbours.
pub const AURA_KINDS: [u8; 10] = [
    0, 0, 1, 1, 1, 1, 2, 2, 2, 0,
];

/// The tribe each reaches, if it reaches one.
pub const AURA_RACES: [u32; 10] = [
    0, 0, 1, 32, 32, 64, 0, 0, 0, 0,
];

/// The attack each grants.
pub const AURA_ATTACK: [i16; 10] = [
    1, 1, 1, 2, 1, 1, 1, 2, 1, 1,
];

/// The health each grants.
pub const AURA_HEALTH: [i16; 10] = [
    1, 0, 0, 0, 0, 1, 0, 0, 0, 0,
];

/// The rows that grant themselves a bonus.
pub const BONUS_ROWS: [u16; 22] = [
    537, 538, 539, 540, 541, 542, 543, 544, 545, 546, 547, 548, 549, 550, 551, 552, 553, 554, 555,
    556, 557, 776,
];

/// The condition of each.
pub const BONUS_KINDS: [u8; 22] = [
    0, 0, 0, 0, 0, 0, 0, 0, 0, 0, 0, 1, 1, 1, 1, 1, 2, 3, 4, 5, 6, 7,
];

/// The tribe or the number in the condition of each.
pub const BONUS_LIMITS: [u32; 22] = [
    0, 0, 0, 0, 0, 0, 0, 0, 0, 0, 0, 0, 0, 0, 0, 0, 16, 0, 0, 0, 0, 25,
];

/// The attack each grants.
pub const BONUS_ATTACK: [i16; 22] = [
    2, 3, 5, 3, 4, 6, 3, 3, 2, 3, 1, 2, 2, 3, 4, 6, 2, 2, 2, 3, 1, 5,
];

/// The rows whose cost changes with the position.
pub const COST_ROWS: [u16; 18] = [
    174, 175, 176, 203, 223, 242, 380, 583, 628, 704, 741, 747, 774, 775, 799, 954, 963, 1018,
];

/// What each depends on.
pub const COST_KINDS: [u8; 18] = [
    0, 1, 2, 3, 4, 5, 6, 7, 8, 9, 10, 11, 12, 13, 14, 15, 16, 17,
];

/// The tribe, the schools or the number in the condition of each.
pub const COST_LIMITS: [u16; 18] = [
    0, 4, 4, 0, 0, 0, 0, 0, 0, 0, 0, 160, 25, 0, 0, 0, 32, 0,
];

/// How much each changes by, where that is a fixed amount.
pub const COST_CHANGES: [i16; 18] = [
    0, -3, -2, 0, -2, 0, 0, -3, -3, 0, -4, -5, -2, 0, -4, 0, -2, 0,
];

/// The rows of the Choose One modes, in order.
pub const MODE_ROWS: [u16; 55] = [
    95, 95, 96, 96, 97, 97, 98, 98, 99, 99, 100, 100, 159, 159, 230, 230, 274, 274, 275, 275, 426,
    426, 426, 457, 457, 458, 458, 459, 459, 602, 602, 602, 680, 680, 713, 713, 726, 726, 736, 736,
    753, 753, 762, 762, 787, 787, 815, 815, 817, 817, 990, 990, 1014, 1014, 1014,
];

/// What each Choose One mode needs pointed at.
pub const MODE_TARGETS: [u8; 55] = [
    2, 2, 0, 0, 2, 2, 0, 0, 1, 2, 0, 0, 0, 0, 0, 3, 0, 0, 0, 2, 0, 0, 0, 1, 0, 0, 0, 0, 0, 0, 0,
    0, 0, 0, 0, 0, 0, 3, 7, 0, 0, 0, 0, 11, 0, 0, 0, 1, 0, 0, 0, 0, 0, 0, 0,
];

} // verus!
