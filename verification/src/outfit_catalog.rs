//! The outfits offered in the change-outfit dialog, by sex.

use vstd::prelude::*;

verus! {

/// One selectable outfit: `(look_type, name)`.
pub type CatalogEntry = (u16, &'static str);

/// The outfits of female characters, by ascending look type.
pub const FEMALE: [CatalogEntry; 55] = [
    (136, "Citizen"),
    (137, "Hunter"),
    (138, "Mage"),
    (139, "Knight"),
    (140, "Noblewoman"),
    (141, "Summoner"),
    (142, "Warrior"),
    (147, "Barbarian"),
    (148, "Druid"),
    (149, "Wizard"),
    (150, "Oriental"),
    (155, "Pirate"),
    (156, "Assassin"),
    (157, "Beggar"),
    (158, "Shaman"),
    (252, "Norsewoman"),
    (269, "Nightmare"),
    (270, "Jester"),
    (279, "Brotherhood"),
    (288, "Demon Hunter"),
    (324, "Yalaharian"),
    (329, "Newly Wed"),
    (336, "Warmaster"),
    (366, "Wayfarer"),
    (431, "Afflicted"),
    (433, "Elementalist"),
    (464, "Deepling"),
    (466, "Insectoid"),
    (471, "Entrepreneur"),
    (513, "Crystal Warlord"),
    (514, "Soil Guardian"),
    (542, "Demon Outfit"),
    (575, "Cave Explorer"),
    (578, "Dream Warden"),
    (618, "Glooth Engineer"),
    (620, "Jersey"),
    (632, "Champion"),
    (635, "Conjurer"),
    (636, "Beastmaster"),
    (664, "Chaos Acolyte"),
    (666, "Death Herald"),
    (683, "Ranger"),
    (694, "Ceremonial Garb"),
    (696, "Puppeteer"),
    (698, "Spirit Caller"),
    (724, "Evoker"),
    (732, "Seaweaver"),
    (745, "Recruiter"),
    (749, "Sea Dog"),
    (759, "Royal Pumpkin"),
    (845, "Rift Warrior"),
    (852, "Winter Warden"),
    (874, "Philosopher"),
    (885, "Arena Champion"),
    (900, "Lupine Warden"),
];

/// The outfits of male characters.
pub const MALE: [CatalogEntry; 55] = [
    (128, "Citizen"),
    (129, "Hunter"),
    (130, "Mage"),
    (131, "Knight"),
    (132, "Nobleman"),
    (133, "Summoner"),
    (134, "Warrior"),
    (143, "Barbarian"),
    (144, "Druid"),
    (145, "Wizard"),
    (146, "Oriental"),
    (151, "Pirate"),
    (152, "Assassin"),
    (153, "Beggar"),
    (154, "Shaman"),
    (251, "Norseman"),
    (268, "Nightmare"),
    (273, "Jester"),
    (278, "Brotherhood"),
    (289, "Demon Hunter"),
    (325, "Yalaharian"),
    (328, "Newly Wed"),
    (335, "Warmaster"),
    (367, "Wayfarer"),
    (430, "Afflicted"),
    (432, "Elementalist"),
    (463, "Deepling"),
    (465, "Insectoid"),
    (472, "Entrepreneur"),
    (512, "Crystal Warlord"),
    (516, "Soil Guardian"),
    (541, "Demon Outfit"),
    (574, "Cave Explorer"),
    (577, "Dream Warden"),
    (610, "Glooth Engineer"),
    (619, "Jersey"),
    (633, "Champion"),
    (634, "Conjurer"),
    (637, "Beastmaster"),
    (665, "Chaos Acolyte"),
    (667, "Death Herald"),
    (684, "Ranger"),
    (695, "Ceremonial Garb"),
    (697, "Puppeteer"),
    (699, "Spirit Caller"),
    (725, "Evoker"),
    (733, "Seaweaver"),
    (746, "Recruiter"),
    (750, "Sea Dog"),
    (760, "Royal Pumpkin"),
    (846, "Rift Warrior"),
    (853, "Winter Warden"),
    (873, "Philosopher"),
    (884, "Arena Champion"),
    (899, "Lupine Warden"),
];

/// The outfit catalogue for the given `sex`: 0 is female, any other value male.
pub fn catalog_for_sex(sex: u8) -> (r: &'static [CatalogEntry])
    ensures
        r@ == (if sex == 0 {
            FEMALE@
        } else {
            MALE@
        }),
{
    if sex == 0 {
        &FEMALE
    } else {
        &MALE
    }
}

} // verus!
