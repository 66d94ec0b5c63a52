//! The classic board: forty-two territories on six continents.
use crate::boards::{
    continent_sound, link_sound, member_weight, members, sound_layout, territory_sound,
    BoardStruct, BoardType,
};
use crate::continent::Continent;
use crate::tally::lemma_sum_by_push;
use crate::territory::Territory;
use vstd::prelude::*;

verus! {

/// The number of continents of the classic board.
pub const CONTINENTS: usize = 6;

/// The number of territories of the classic board.
pub const TERRITORIES: usize = 42;

/// The lines of text that fit beside the classic map.
pub const EXTRA_INFO_LINES: usize = 6;

// The continents, by their index on the board.
pub const NORTH_AMERICA: usize = 0;

pub const EUROPE: usize = 1;

pub const ASIA: usize = 2;

pub const SOUTH_AMERICA: usize = 3;

pub const AFRICA: usize = 4;

pub const AUSTRALIA: usize = 5;

// The territories, by their index on the board.
pub const ALASKA: usize = 0;

pub const NORTHWEST_TERRITORY: usize = 1;

pub const GREENLAND: usize = 2;

pub const YAKUTSK: usize = 3;

pub const ALBERTA: usize = 4;

pub const ONTARIO: usize = 5;

pub const QUEBEC: usize = 6;

pub const ICELAND: usize = 7;

pub const SCANDINAVIA: usize = 8;

pub const URAL: usize = 9;

pub const SIBERIA: usize = 10;

pub const IRKUTSK: usize = 11;

pub const KAMCHATKA: usize = 12;

pub const WESTERN_US: usize = 13;

pub const EASTERN_US: usize = 14;

pub const GREAT_BRITAIN: usize = 15;

pub const NORTHERN_EUROPE: usize = 16;

pub const UKRAINE: usize = 17;

pub const AFGHANISTAN: usize = 18;

pub const CHINA: usize = 19;

pub const MONGOLIA: usize = 20;

pub const JAPAN: usize = 21;

pub const CENTRAL_AMERICA: usize = 22;

pub const WESTERN_EUROPE: usize = 23;

pub const SOUTHERN_EUROPE: usize = 24;

pub const MIDDLE_EAST: usize = 25;

pub const INDIA: usize = 26;

pub const SIAM: usize = 27;

pub const VENEZUELA: usize = 28;

pub const BRAZIL: usize = 29;

pub const NORTH_AFRICA: usize = 30;

pub const EGYPT: usize = 31;

pub const INDONESIA: usize = 32;

pub const NEW_GUINEA: usize = 33;

pub const PERU: usize = 34;

pub const ARGENTINA: usize = 35;

pub const CONGO: usize = 36;

pub const EAST_AFRICA: usize = 37;

pub const WESTERN_AUSTRALIA: usize = 38;

pub const EASTERN_AUSTRALIA: usize = 39;

pub const SOUTH_AFRICA: usize = 40;

pub const MADAGASCAR: usize = 41;

/// The name of a continent of the classic board.
pub open spec fn continent_name(continent: int) -> Seq<char> {
    if continent == NORTH_AMERICA {
        "North America"@
    } else if continent == EUROPE {
        "Europe"@
    } else if continent == ASIA {
        "Asia"@
    } else if continent == SOUTH_AMERICA {
        "South America"@
    } else if continent == AFRICA {
        "Africa"@
    } else {
        "Australia"@
    }
}

/// The armies that occupying a continent of the classic board entirely is
/// rewarded with.
pub open spec fn continent_reward(continent: int) -> u32 {
    if continent == NORTH_AMERICA {
        5
    } else if continent == EUROPE {
        5
    } else if continent == ASIA {
        7
    } else if continent == SOUTH_AMERICA {
        2
    } else if continent == AFRICA {
        3
    } else {
        2
    }
}

/// The number of territories of a continent of the classic board.
pub open spec fn continent_size(continent: int) -> u32 {
    if continent == NORTH_AMERICA {
        9
    } else if continent == EUROPE {
        7
    } else if continent == ASIA {
        12
    } else if continent == SOUTH_AMERICA {
        4
    } else if continent == AFRICA {
        6
    } else {
        4
    }
}

/// The name of a territory of the classic board.
pub open spec fn territory_name(territory: int) -> Seq<char> {
    if territory == ALASKA {
        "Alaska"@
    } else if territory == NORTHWEST_TERRITORY {
        "Northwest Territory"@
    } else if territory == GREENLAND {
        "Greenland"@
    } else if territory == YAKUTSK {
        "Yakutsk"@
    } else if territory == ALBERTA {
        "Alberta"@
    } else if territory == ONTARIO {
        "Ontario"@
    } else if territory == QUEBEC {
        "Quebec"@
    } else if territory == ICELAND {
        "Iceland"@
    } else if territory == SCANDINAVIA {
        "Scandinavia"@
    } else if territory == URAL {
        "Ural"@
    } else if territory == SIBERIA {
        "Siberia"@
    } else if territory == IRKUTSK {
        "Irkutsk"@
    } else if territory == KAMCHATKA {
        "Kamchatka"@
    } else if territory == WESTERN_US {
        "Western US"@
    } else if territory == EASTERN_US {
        "Eastern US"@
    } else if territory == GREAT_BRITAIN {
        "Great Britain"@
    } else if territory == NORTHERN_EUROPE {
        "Northern Europe"@
    } else if territory == UKRAINE {
        "Ukraine"@
    } else if territory == AFGHANISTAN {
        "Afghanistan"@
    } else if territory == CHINA {
        "China"@
    } else if territory == MONGOLIA {
        "Mongolia"@
    } else if territory == JAPAN {
        "Japan"@
    } else if territory == CENTRAL_AMERICA {
        "Central America"@
    } else if territory == WESTERN_EUROPE {
        "Western Europe"@
    } else if territory == SOUTHERN_EUROPE {
        "Southern Europe"@
    } else if territory == MIDDLE_EAST {
        "Middle East"@
    } else if territory == INDIA {
        "India"@
    } else if territory == SIAM {
        "Siam"@
    } else if territory == VENEZUELA {
        "Venezuela"@
    } else if territory == BRAZIL {
        "Brazil"@
    } else if territory == NORTH_AFRICA {
        "North Africa"@
    } else if territory == EGYPT {
        "Egypt"@
    } else if territory == INDONESIA {
        "Indonesia"@
    } else if territory == NEW_GUINEA {
        "New Guinea"@
    } else if territory == PERU {
        "Peru"@
    } else if territory == ARGENTINA {
        "Argentina"@
    } else if territory == CONGO {
        "Congo"@
    } else if territory == EAST_AFRICA {
        "East Africa"@
    } else if territory == WESTERN_AUSTRALIA {
        "Western Australia"@
    } else if territory == EASTERN_AUSTRALIA {
        "Eastern Australia"@
    } else if territory == SOUTH_AFRICA {
        "South Africa"@
    } else {
        "Madagascar"@
    }
}

/// The continent that a territory of the classic board lies in.
pub open spec fn continent_of(territory: int) -> usize {
    if territory == ALASKA {
        NORTH_AMERICA
    } else if territory == NORTHWEST_TERRITORY {
        NORTH_AMERICA
    } else if territory == GREENLAND {
        NORTH_AMERICA
    } else if territory == YAKUTSK {
        ASIA
    } else if territory == ALBERTA {
        NORTH_AMERICA
    } else if territory == ONTARIO {
        NORTH_AMERICA
    } else if territory == QUEBEC {
        NORTH_AMERICA
    } else if territory == ICELAND {
        EUROPE
    } else if territory == SCANDINAVIA {
        EUROPE
    } else if territory == URAL {
        ASIA
    } else if territory == SIBERIA {
        ASIA
    } else if territory == IRKUTSK {
        ASIA
    } else if territory == KAMCHATKA {
        ASIA
    } else if territory == WESTERN_US {
        NORTH_AMERICA
    } else if territory == EASTERN_US {
        NORTH_AMERICA
    } else if territory == GREAT_BRITAIN {
        EUROPE
    } else if territory == NORTHERN_EUROPE {
        EUROPE
    } else if territory == UKRAINE {
        EUROPE
    } else if territory == AFGHANISTAN {
        ASIA
    } else if territory == CHINA {
        ASIA
    } else if territory == MONGOLIA {
        ASIA
    } else if territory == JAPAN {
        ASIA
    } else if territory == CENTRAL_AMERICA {
        NORTH_AMERICA
    } else if territory == WESTERN_EUROPE {
        EUROPE
    } else if territory == SOUTHERN_EUROPE {
        EUROPE
    } else if territory == MIDDLE_EAST {
        ASIA
    } else if territory == INDIA {
        ASIA
    } else if territory == SIAM {
        ASIA
    } else if territory == VENEZUELA {
        SOUTH_AMERICA
    } else if territory == BRAZIL {
        SOUTH_AMERICA
    } else if territory == NORTH_AFRICA {
        AFRICA
    } else if territory == EGYPT {
        AFRICA
    } else if territory == INDONESIA {
        AUSTRALIA
    } else if territory == NEW_GUINEA {
        AUSTRALIA
    } else if territory == PERU {
        SOUTH_AMERICA
    } else if territory == ARGENTINA {
        SOUTH_AMERICA
    } else if territory == CONGO {
        AFRICA
    } else if territory == EAST_AFRICA {
        AFRICA
    } else if territory == WESTERN_AUSTRALIA {
        AUSTRALIA
    } else if territory == EASTERN_AUSTRALIA {
        AUSTRALIA
    } else if territory == SOUTH_AFRICA {
        AFRICA
    } else {
        AFRICA
    }
}

/// The neighbors of a territory of the classic board.
pub open spec fn neighbors_of(territory: int) -> Seq<usize> {
    if territory == ALASKA {
        seq![NORTHWEST_TERRITORY, ALBERTA, KAMCHATKA]
    } else if territory == NORTHWEST_TERRITORY {
        seq![ALASKA, GREENLAND, ALBERTA, ONTARIO]
    } else if territory == GREENLAND {
        seq![NORTHWEST_TERRITORY, ICELAND, ONTARIO, QUEBEC]
    } else if territory == YAKUTSK {
        seq![SIBERIA, IRKUTSK, KAMCHATKA]
    } else if territory == ALBERTA {
        seq![ALASKA, NORTHWEST_TERRITORY, ONTARIO, WESTERN_US]
    } else if territory == ONTARIO {
        seq![ALBERTA, NORTHWEST_TERRITORY, GREENLAND, QUEBEC, WESTERN_US, EASTERN_US]
    } else if territory == QUEBEC {
        seq![ONTARIO, GREENLAND, EASTERN_US]
    } else if territory == ICELAND {
        seq![GREENLAND, SCANDINAVIA, GREAT_BRITAIN]
    } else if territory == SCANDINAVIA {
        seq![ICELAND, GREAT_BRITAIN, NORTHERN_EUROPE, UKRAINE]
    } else if territory == URAL {
        seq![UKRAINE, AFGHANISTAN, CHINA, SIBERIA]
    } else if territory == SIBERIA {
        seq![URAL, CHINA, MONGOLIA, IRKUTSK, YAKUTSK]
    } else if territory == IRKUTSK {
        seq![SIBERIA, MONGOLIA, KAMCHATKA, YAKUTSK]
    } else if territory == KAMCHATKA {
        seq![YAKUTSK, IRKUTSK, MONGOLIA, JAPAN, ALASKA]
    } else if territory == WESTERN_US {
        seq![ALBERTA, ONTARIO, EASTERN_US, CENTRAL_AMERICA]
    } else if territory == EASTERN_US {
        seq![WESTERN_US, CENTRAL_AMERICA, QUEBEC, ONTARIO]
    } else if territory == GREAT_BRITAIN {
        seq![ICELAND, SCANDINAVIA, NORTHERN_EUROPE, WESTERN_EUROPE]
    } else if territory == NORTHERN_EUROPE {
        seq![GREAT_BRITAIN, SCANDINAVIA, UKRAINE, WESTERN_EUROPE, SOUTHERN_EUROPE]
    } else if territory == UKRAINE {
        seq![SCANDINAVIA, NORTHERN_EUROPE, SOUTHERN_EUROPE, URAL, AFGHANISTAN, MIDDLE_EAST]
    } else if territory == AFGHANISTAN {
        seq![URAL, UKRAINE, MIDDLE_EAST, INDIA, CHINA]
    } else if territory == CHINA {
        seq![AFGHANISTAN, INDIA, SIAM, MONGOLIA, SIBERIA, URAL]
    } else if territory == MONGOLIA {
        seq![CHINA, JAPAN, KAMCHATKA, IRKUTSK, SIBERIA]
    } else if territory == JAPAN {
        seq![MONGOLIA, KAMCHATKA]
    } else if territory == CENTRAL_AMERICA {
        seq![WESTERN_US, EASTERN_US, VENEZUELA]
    } else if territory == WESTERN_EUROPE {
        seq![NORTH_AFRICA, GREAT_BRITAIN, NORTHERN_EUROPE, SOUTHERN_EUROPE]
    } else if territory == SOUTHERN_EUROPE {
        seq![NORTHERN_EUROPE, UKRAINE, WESTERN_EUROPE, MIDDLE_EAST, NORTH_AFRICA, EGYPT]
    } else if territory == MIDDLE_EAST {
        seq![AFGHANISTAN, UKRAINE, SOUTHERN_EUROPE, EGYPT, EAST_AFRICA, INDIA]
    } else if territory == INDIA {
        seq![MIDDLE_EAST, SIAM, CHINA, AFGHANISTAN]
    } else if territory == SIAM {
        seq![CHINA, INDIA, INDONESIA]
    } else if territory == VENEZUELA {
        seq![CENTRAL_AMERICA, BRAZIL, PERU]
    } else if territory == BRAZIL {
        seq![VENEZUELA, PERU, ARGENTINA, NORTH_AFRICA]
    } else if territory == NORTH_AFRICA {
        seq![WESTERN_EUROPE, SOUTHERN_EUROPE, BRAZIL, CONGO, EAST_AFRICA, EGYPT]
    } else if territory == EGYPT {
        seq![NORTH_AFRICA, EAST_AFRICA, MIDDLE_EAST, SOUTHERN_EUROPE]
    } else if territory == INDONESIA {
        seq![SIAM, NEW_GUINEA, WESTERN_AUSTRALIA]
    } else if territory == NEW_GUINEA {
        seq![INDONESIA, WESTERN_AUSTRALIA, EASTERN_AUSTRALIA]
    } else if territory == PERU {
        seq![VENEZUELA, BRAZIL, ARGENTINA]
    } else if territory == ARGENTINA {
        seq![PERU, BRAZIL]
    } else if territory == CONGO {
        seq![NORTH_AFRICA, SOUTH_AFRICA, EAST_AFRICA]
    } else if territory == EAST_AFRICA {
        seq![NORTH_AFRICA, CONGO, SOUTH_AFRICA, MADAGASCAR, MIDDLE_EAST, EGYPT]
    } else if territory == WESTERN_AUSTRALIA {
        seq![INDONESIA, NEW_GUINEA, EASTERN_AUSTRALIA]
    } else if territory == EASTERN_AUSTRALIA {
        seq![WESTERN_AUSTRALIA, NEW_GUINEA]
    } else if territory == SOUTH_AFRICA {
        seq![CONGO, EAST_AFRICA, MADAGASCAR]
    } else {
        seq![SOUTH_AFRICA, EAST_AFRICA]
    }
}
/// The name of a continent of the classic board.
fn name_continent(continent: usize) -> (name: &'static str)
    ensures
        name@ == continent_name(continent as int),
{
    match continent {
        NORTH_AMERICA => "North America",
        EUROPE => "Europe",
        ASIA => "Asia",
        SOUTH_AMERICA => "South America",
        AFRICA => "Africa",
        _ => "Australia",
    }
}

/// The armies that occupying a continent of the classic board entirely is
/// rewarded with.
fn reward_continent(continent: usize) -> (reward: u32)
    ensures
        reward == continent_reward(continent as int),
{
    match continent {
        NORTH_AMERICA => 5,
        EUROPE => 5,
        ASIA => 7,
        SOUTH_AMERICA => 2,
        AFRICA => 3,
        _ => 2,
    }
}

/// The number of territories of a continent of the classic board.
fn size_continent(continent: usize) -> (size: u32)
    ensures
        size == continent_size(continent as int),
{
    match continent {
        NORTH_AMERICA => 9,
        EUROPE => 7,
        ASIA => 12,
        SOUTH_AMERICA => 4,
        AFRICA => 6,
        _ => 4,
    }
}

/// The name of a territory of the classic board.
fn name_territory(territory: usize) -> (name: &'static str)
    ensures
        name@ == territory_name(territory as int),
{
    match territory {
        ALASKA => "Alaska",
        NORTHWEST_TERRITORY => "Northwest Territory",
        GREENLAND => "Greenland",
        YAKUTSK => "Yakutsk",
        ALBERTA => "Alberta",
        ONTARIO => "Ontario",
        QUEBEC => "Quebec",
        ICELAND => "Iceland",
        SCANDINAVIA => "Scandinavia",
        URAL => "Ural",
        SIBERIA => "Siberia",
        IRKUTSK => "Irkutsk",
        KAMCHATKA => "Kamchatka",
        WESTERN_US => "Western US",
        EASTERN_US => "Eastern US",
        GREAT_BRITAIN => "Great Britain",
        NORTHERN_EUROPE => "Northern Europe",
        UKRAINE => "Ukraine",
        AFGHANISTAN => "Afghanistan",
        CHINA => "China",
        MONGOLIA => "Mongolia",
        JAPAN => "Japan",
        CENTRAL_AMERICA => "Central America",
        WESTERN_EUROPE => "Western Europe",
        SOUTHERN_EUROPE => "Southern Europe",
        MIDDLE_EAST => "Middle East",
        INDIA => "India",
        SIAM => "Siam",
        VENEZUELA => "Venezuela",
        BRAZIL => "Brazil",
        NORTH_AFRICA => "North Africa",
        EGYPT => "Egypt",
        INDONESIA => "Indonesia",
        NEW_GUINEA => "New Guinea",
        PERU => "Peru",
        ARGENTINA => "Argentina",
        CONGO => "Congo",
        EAST_AFRICA => "East Africa",
        WESTERN_AUSTRALIA => "Western Australia",
        EASTERN_AUSTRALIA => "Eastern Australia",
        SOUTH_AFRICA => "South Africa",
        _ => "Madagascar",
    }
}

/// The continent that a territory of the classic board lies in.
fn locate(territory: usize) -> (continent: usize)
    ensures
        continent == continent_of(territory as int),
{
    match territory {
        ALASKA => NORTH_AMERICA,
        NORTHWEST_TERRITORY => NORTH_AMERICA,
        GREENLAND => NORTH_AMERICA,
        YAKUTSK => ASIA,
        ALBERTA => NORTH_AMERICA,
        ONTARIO => NORTH_AMERICA,
        QUEBEC => NORTH_AMERICA,
        ICELAND => EUROPE,
        SCANDINAVIA => EUROPE,
        URAL => ASIA,
        SIBERIA => ASIA,
        IRKUTSK => ASIA,
        KAMCHATKA => ASIA,
        WESTERN_US => NORTH_AMERICA,
        EASTERN_US => NORTH_AMERICA,
        GREAT_BRITAIN => EUROPE,
        NORTHERN_EUROPE => EUROPE,
        UKRAINE => EUROPE,
        AFGHANISTAN => ASIA,
        CHINA => ASIA,
        MONGOLIA => ASIA,
        JAPAN => ASIA,
        CENTRAL_AMERICA => NORTH_AMERICA,
        WESTERN_EUROPE => EUROPE,
        SOUTHERN_EUROPE => EUROPE,
        MIDDLE_EAST => ASIA,
        INDIA => ASIA,
        SIAM => ASIA,
        VENEZUELA => SOUTH_AMERICA,
        BRAZIL => SOUTH_AMERICA,
        NORTH_AFRICA => AFRICA,
        EGYPT => AFRICA,
        INDONESIA => AUSTRALIA,
        NEW_GUINEA => AUSTRALIA,
        PERU => SOUTH_AMERICA,
        ARGENTINA => SOUTH_AMERICA,
        CONGO => AFRICA,
        EAST_AFRICA => AFRICA,
        WESTERN_AUSTRALIA => AUSTRALIA,
        EASTERN_AUSTRALIA => AUSTRALIA,
        SOUTH_AFRICA => AFRICA,
        _ => AFRICA,
    }
}

/// The neighbors of a territory of the classic board.
fn neighbors(territory: usize) -> (connections: Vec<usize>)
    ensures
        connections@ == neighbors_of(territory as int),
{
    match territory {
        ALASKA => vec![NORTHWEST_TERRITORY, ALBERTA, KAMCHATKA],
        NORTHWEST_TERRITORY => vec![ALASKA, GREENLAND, ALBERTA, ONTARIO],
        GREENLAND => vec![NORTHWEST_TERRITORY, ICELAND, ONTARIO, QUEBEC],
        YAKUTSK => vec![SIBERIA, IRKUTSK, KAMCHATKA],
        ALBERTA => vec![ALASKA, NORTHWEST_TERRITORY, ONTARIO, WESTERN_US],
        ONTARIO => vec![ALBERTA, NORTHWEST_TERRITORY, GREENLAND, QUEBEC, WESTERN_US, EASTERN_US],
        QUEBEC => vec![ONTARIO, GREENLAND, EASTERN_US],
        ICELAND => vec![GREENLAND, SCANDINAVIA, GREAT_BRITAIN],
        SCANDINAVIA => vec![ICELAND, GREAT_BRITAIN, NORTHERN_EUROPE, UKRAINE],
        URAL => vec![UKRAINE, AFGHANISTAN, CHINA, SIBERIA],
        SIBERIA => vec![URAL, CHINA, MONGOLIA, IRKUTSK, YAKUTSK],
        IRKUTSK => vec![SIBERIA, MONGOLIA, KAMCHATKA, YAKUTSK],
        KAMCHATKA => vec![YAKUTSK, IRKUTSK, MONGOLIA, JAPAN, ALASKA],
        WESTERN_US => vec![ALBERTA, ONTARIO, EASTERN_US, CENTRAL_AMERICA],
        EASTERN_US => vec![WESTERN_US, CENTRAL_AMERICA, QUEBEC, ONTARIO],
        GREAT_BRITAIN => vec![ICELAND, SCANDINAVIA, NORTHERN_EUROPE, WESTERN_EUROPE],
        NORTHERN_EUROPE => vec![GREAT_BRITAIN, SCANDINAVIA, UKRAINE, WESTERN_EUROPE, SOUTHERN_EUROPE],
        UKRAINE => vec![SCANDINAVIA, NORTHERN_EUROPE, SOUTHERN_EUROPE, URAL, AFGHANISTAN, MIDDLE_EAST],
        AFGHANISTAN => vec![URAL, UKRAINE, MIDDLE_EAST, INDIA, CHINA],
        CHINA => vec![AFGHANISTAN, INDIA, SIAM, MONGOLIA, SIBERIA, URAL],
        MONGOLIA => vec![CHINA, JAPAN, KAMCHATKA, IRKUTSK, SIBERIA],
        JAPAN => vec![MONGOLIA, KAMCHATKA],
        CENTRAL_AMERICA => vec![WESTERN_US, EASTERN_US, VENEZUELA],
        WESTERN_EUROPE => vec![NORTH_AFRICA, GREAT_BRITAIN, NORTHERN_EUROPE, SOUTHERN_EUROPE],
        SOUTHERN_EUROPE => vec![NORTHERN_EUROPE, UKRAINE, WESTERN_EUROPE, MIDDLE_EAST, NORTH_AFRICA, EGYPT],
        MIDDLE_EAST => vec![AFGHANISTAN, UKRAINE, SOUTHERN_EUROPE, EGYPT, EAST_AFRICA, INDIA],
        INDIA => vec![MIDDLE_EAST, SIAM, CHINA, AFGHANISTAN],
        SIAM => vec![CHINA, INDIA, INDONESIA],
        VENEZUELA => vec![CENTRAL_AMERICA, BRAZIL, PERU],
        BRAZIL => vec![VENEZUELA, PERU, ARGENTINA, NORTH_AFRICA],
        NORTH_AFRICA => vec![WESTERN_EUROPE, SOUTHERN_EUROPE, BRAZIL, CONGO, EAST_AFRICA, EGYPT],
        EGYPT => vec![NORTH_AFRICA, EAST_AFRICA, MIDDLE_EAST, SOUTHERN_EUROPE],
        INDONESIA => vec![SIAM, NEW_GUINEA, WESTERN_AUSTRALIA],
        NEW_GUINEA => vec![INDONESIA, WESTERN_AUSTRALIA, EASTERN_AUSTRALIA],
        PERU => vec![VENEZUELA, BRAZIL, ARGENTINA],
        ARGENTINA => vec![PERU, BRAZIL],
        CONGO => vec![NORTH_AFRICA, SOUTH_AFRICA, EAST_AFRICA],
        EAST_AFRICA => vec![NORTH_AFRICA, CONGO, SOUTH_AFRICA, MADAGASCAR, MIDDLE_EAST, EGYPT],
        WESTERN_AUSTRALIA => vec![INDONESIA, NEW_GUINEA, EASTERN_AUSTRALIA],
        EASTERN_AUSTRALIA => vec![WESTERN_AUSTRALIA, NEW_GUINEA],
        SOUTH_AFRICA => vec![CONGO, EAST_AFRICA, MADAGASCAR],
        _ => vec![SOUTH_AFRICA, EAST_AFRICA],
    }
}

/// Every neighbor of a territory of the classic board is one of its
/// territories and has the territory as a neighbor in turn.
pub proof fn lemma_neighbors_agree(territory: int, k: int)
    requires
        0 <= territory < TERRITORIES,
        0 <= k < neighbors_of(territory).len(),
    ensures
        neighbors_of(territory)[k] < TERRITORIES,
        neighbors_of(neighbors_of(territory)[k] as int).contains(territory as usize),
{
    if territory == ALASKA {
        assert(neighbors_of(NORTHWEST_TERRITORY as int)[0] == ALASKA);
        assert(neighbors_of(ALBERTA as int)[0] == ALASKA);
        assert(neighbors_of(KAMCHATKA as int)[4] == ALASKA);
    } else if territory == NORTHWEST_TERRITORY {
        assert(neighbors_of(ALASKA as int)[0] == NORTHWEST_TERRITORY);
        assert(neighbors_of(GREENLAND as int)[0] == NORTHWEST_TERRITORY);
        assert(neighbors_of(ALBERTA as int)[1] == NORTHWEST_TERRITORY);
        assert(neighbors_of(ONTARIO as int)[1] == NORTHWEST_TERRITORY);
    } else if territory == GREENLAND {
        assert(neighbors_of(NORTHWEST_TERRITORY as int)[1] == GREENLAND);
        assert(neighbors_of(ICELAND as int)[0] == GREENLAND);
        assert(neighbors_of(ONTARIO as int)[2] == GREENLAND);
        assert(neighbors_of(QUEBEC as int)[1] == GREENLAND);
    } else if territory == YAKUTSK {
        assert(neighbors_of(SIBERIA as int)[4] == YAKUTSK);
        assert(neighbors_of(IRKUTSK as int)[3] == YAKUTSK);
        assert(neighbors_of(KAMCHATKA as int)[0] == YAKUTSK);
    } else if territory == ALBERTA {
        assert(neighbors_of(ALASKA as int)[1] == ALBERTA);
        assert(neighbors_of(NORTHWEST_TERRITORY as int)[2] == ALBERTA);
        assert(neighbors_of(ONTARIO as int)[0] == ALBERTA);
        assert(neighbors_of(WESTERN_US as int)[0] == ALBERTA);
    } else if territory == ONTARIO {
        assert(neighbors_of(ALBERTA as int)[2] == ONTARIO);
        assert(neighbors_of(NORTHWEST_TERRITORY as int)[3] == ONTARIO);
        assert(neighbors_of(GREENLAND as int)[2] == ONTARIO);
        assert(neighbors_of(QUEBEC as int)[0] == ONTARIO);
        assert(neighbors_of(WESTERN_US as int)[1] == ONTARIO);
        assert(neighbors_of(EASTERN_US as int)[3] == ONTARIO);
    } else if territory == QUEBEC {
        assert(neighbors_of(ONTARIO as int)[3] == QUEBEC);
        assert(neighbors_of(GREENLAND as int)[3] == QUEBEC);
        assert(neighbors_of(EASTERN_US as int)[2] == QUEBEC);
    } else if territory == ICELAND {
        assert(neighbors_of(GREENLAND as int)[1] == ICELAND);
        assert(neighbors_of(SCANDINAVIA as int)[0] == ICELAND);
        assert(neighbors_of(GREAT_BRITAIN as int)[0] == ICELAND);
    } else if territory == SCANDINAVIA {
        assert(neighbors_of(ICELAND as int)[1] == SCANDINAVIA);
        assert(neighbors_of(GREAT_BRITAIN as int)[1] == SCANDINAVIA);
        assert(neighbors_of(NORTHERN_EUROPE as int)[1] == SCANDINAVIA);
        assert(neighbors_of(UKRAINE as int)[0] == SCANDINAVIA);
    } else if territory == URAL {
        assert(neighbors_of(UKRAINE as int)[3] == URAL);
        assert(neighbors_of(AFGHANISTAN as int)[0] == URAL);
        assert(neighbors_of(CHINA as int)[5] == URAL);
        assert(neighbors_of(SIBERIA as int)[0] == URAL);
    } else if territory == SIBERIA {
        assert(neighbors_of(URAL as int)[3] == SIBERIA);
        assert(neighbors_of(CHINA as int)[4] == SIBERIA);
        assert(neighbors_of(MONGOLIA as int)[4] == SIBERIA);
        assert(neighbors_of(IRKUTSK as int)[0] == SIBERIA);
        assert(neighbors_of(YAKUTSK as int)[0] == SIBERIA);
    } else if territory == IRKUTSK {
        assert(neighbors_of(SIBERIA as int)[3] == IRKUTSK);
        assert(neighbors_of(MONGOLIA as int)[3] == IRKUTSK);
        assert(neighbors_of(KAMCHATKA as int)[1] == IRKUTSK);
        assert(neighbors_of(YAKUTSK as int)[1] == IRKUTSK);
    } else if territory == KAMCHATKA {
        assert(neighbors_of(YAKUTSK as int)[2] == KAMCHATKA);
        assert(neighbors_of(IRKUTSK as int)[2] == KAMCHATKA);
        assert(neighbors_of(MONGOLIA as int)[2] == KAMCHATKA);
        assert(neighbors_of(JAPAN as int)[1] == KAMCHATKA);
        assert(neighbors_of(ALASKA as int)[2] == KAMCHATKA);
    } else if territory == WESTERN_US {
        assert(neighbors_of(ALBERTA as int)[3] == WESTERN_US);
        assert(neighbors_of(ONTARIO as int)[4] == WESTERN_US);
        assert(neighbors_of(EASTERN_US as int)[0] == WESTERN_US);
        assert(neighbors_of(CENTRAL_AMERICA as int)[0] == WESTERN_US);
    } else if territory == EASTERN_US {
        assert(neighbors_of(WESTERN_US as int)[2] == EASTERN_US);
        assert(neighbors_of(CENTRAL_AMERICA as int)[1] == EASTERN_US);
        assert(neighbors_of(QUEBEC as int)[2] == EASTERN_US);
        assert(neighbors_of(ONTARIO as int)[5] == EASTERN_US);
    } else if territory == GREAT_BRITAIN {
        assert(neighbors_of(ICELAND as int)[2] == GREAT_BRITAIN);
        assert(neighbors_of(SCANDINAVIA as int)[1] == GREAT_BRITAIN);
        assert(neighbors_of(NORTHERN_EUROPE as int)[0] == GREAT_BRITAIN);
        assert(neighbors_of(WESTERN_EUROPE as int)[1] == GREAT_BRITAIN);
    } else if territory == NORTHERN_EUROPE {
        assert(neighbors_of(GREAT_BRITAIN as int)[2] == NORTHERN_EUROPE);
        assert(neighbors_of(SCANDINAVIA as int)[2] == NORTHERN_EUROPE);
        assert(neighbors_of(UKRAINE as int)[1] == NORTHERN_EUROPE);
        assert(neighbors_of(WESTERN_EUROPE as int)[2] == NORTHERN_EUROPE);
        assert(neighbors_of(SOUTHERN_EUROPE as int)[0] == NORTHERN_EUROPE);
    } else if territory == UKRAINE {
        assert(neighbors_of(SCANDINAVIA as int)[3] == UKRAINE);
        assert(neighbors_of(NORTHERN_EUROPE as int)[2] == UKRAINE);
        assert(neighbors_of(SOUTHERN_EUROPE as int)[1] == UKRAINE);
        assert(neighbors_of(URAL as int)[0] == UKRAINE);
        assert(neighbors_of(AFGHANISTAN as int)[1] == UKRAINE);
        assert(neighbors_of(MIDDLE_EAST as int)[1] == UKRAINE);
    } else if territory == AFGHANISTAN {
        assert(neighbors_of(URAL as int)[1] == AFGHANISTAN);
        assert(neighbors_of(UKRAINE as int)[4] == AFGHANISTAN);
        assert(neighbors_of(MIDDLE_EAST as int)[0] == AFGHANISTAN);
        assert(neighbors_of(INDIA as int)[3] == AFGHANISTAN);
        assert(neighbors_of(CHINA as int)[0] == AFGHANISTAN);
    } else if territory == CHINA {
        assert(neighbors_of(AFGHANISTAN as int)[4] == CHINA);
        assert(neighbors_of(INDIA as int)[2] == CHINA);
        assert(neighbors_of(SIAM as int)[0] == CHINA);
        assert(neighbors_of(MONGOLIA as int)[0] == CHINA);
        assert(neighbors_of(SIBERIA as int)[1] == CHINA);
        assert(neighbors_of(URAL as int)[2] == CHINA);
    } else if territory == MONGOLIA {
        assert(neighbors_of(CHINA as int)[3] == MONGOLIA);
        assert(neighbors_of(JAPAN as int)[0] == MONGOLIA);
        assert(neighbors_of(KAMCHATKA as int)[2] == MONGOLIA);
        assert(neighbors_of(IRKUTSK as int)[1] == MONGOLIA);
        assert(neighbors_of(SIBERIA as int)[2] == MONGOLIA);
    } else if territory == JAPAN {
        assert(neighbors_of(MONGOLIA as int)[1] == JAPAN);
        assert(neighbors_of(KAMCHATKA as int)[3] == JAPAN);
    } else if territory == CENTRAL_AMERICA {
        assert(neighbors_of(WESTERN_US as int)[3] == CENTRAL_AMERICA);
        assert(neighbors_of(EASTERN_US as int)[1] == CENTRAL_AMERICA);
        assert(neighbors_of(VENEZUELA as int)[0] == CENTRAL_AMERICA);
    } else if territory == WESTERN_EUROPE {
        assert(neighbors_of(NORTH_AFRICA as int)[0] == WESTERN_EUROPE);
        assert(neighbors_of(GREAT_BRITAIN as int)[3] == WESTERN_EUROPE);
        assert(neighbors_of(NORTHERN_EUROPE as int)[3] == WESTERN_EUROPE);
        assert(neighbors_of(SOUTHERN_EUROPE as int)[2] == WESTERN_EUROPE);
    } else if territory == SOUTHERN_EUROPE {
        assert(neighbors_of(NORTHERN_EUROPE as int)[4] == SOUTHERN_EUROPE);
        assert(neighbors_of(UKRAINE as int)[2] == SOUTHERN_EUROPE);
        assert(neighbors_of(WESTERN_EUROPE as int)[3] == SOUTHERN_EUROPE);
        assert(neighbors_of(MIDDLE_EAST as int)[2] == SOUTHERN_EUROPE);
        assert(neighbors_of(NORTH_AFRICA as int)[1] == SOUTHERN_EUROPE);
        assert(neighbors_of(EGYPT as int)[3] == SOUTHERN_EUROPE);
    } else if territory == MIDDLE_EAST {
        assert(neighbors_of(AFGHANISTAN as int)[2] == MIDDLE_EAST);
        assert(neighbors_of(UKRAINE as int)[5] == MIDDLE_EAST);
        assert(neighbors_of(SOUTHERN_EUROPE as int)[3] == MIDDLE_EAST);
        assert(neighbors_of(EGYPT as int)[2] == MIDDLE_EAST);
        assert(neighbors_of(EAST_AFRICA as int)[4] == MIDDLE_EAST);
        assert(neighbors_of(INDIA as int)[0] == MIDDLE_EAST);
    } else if territory == INDIA {
        assert(neighbors_of(MIDDLE_EAST as int)[5] == INDIA);
        assert(neighbors_of(SIAM as int)[1] == INDIA);
        assert(neighbors_of(CHINA as int)[1] == INDIA);
        assert(neighbors_of(AFGHANISTAN as int)[3] == INDIA);
    } else if territory == SIAM {
        assert(neighbors_of(CHINA as int)[2] == SIAM);
        assert(neighbors_of(INDIA as int)[1] == SIAM);
        assert(neighbors_of(INDONESIA as int)[0] == SIAM);
    } else if territory == VENEZUELA {
        assert(neighbors_of(CENTRAL_AMERICA as int)[2] == VENEZUELA);
        assert(neighbors_of(BRAZIL as int)[0] == VENEZUELA);
        assert(neighbors_of(PERU as int)[0] == VENEZUELA);
    } else if territory == BRAZIL {
        assert(neighbors_of(VENEZUELA as int)[1] == BRAZIL);
        assert(neighbors_of(PERU as int)[1] == BRAZIL);
        assert(neighbors_of(ARGENTINA as int)[1] == BRAZIL);
        assert(neighbors_of(NORTH_AFRICA as int)[2] == BRAZIL);
    } else if territory == NORTH_AFRICA {
        assert(neighbors_of(WESTERN_EUROPE as int)[0] == NORTH_AFRICA);
        assert(neighbors_of(SOUTHERN_EUROPE as int)[4] == NORTH_AFRICA);
        assert(neighbors_of(BRAZIL as int)[3] == NORTH_AFRICA);
        assert(neighbors_of(CONGO as int)[0] == NORTH_AFRICA);
        assert(neighbors_of(EAST_AFRICA as int)[0] == NORTH_AFRICA);
        assert(neighbors_of(EGYPT as int)[0] == NORTH_AFRICA);
    } else if territory == EGYPT {
        assert(neighbors_of(NORTH_AFRICA as int)[5] == EGYPT);
        assert(neighbors_of(EAST_AFRICA as int)[5] == EGYPT);
        assert(neighbors_of(MIDDLE_EAST as int)[3] == EGYPT);
        assert(neighbors_of(SOUTHERN_EUROPE as int)[5] == EGYPT);
    } else if territory == INDONESIA {
        assert(neighbors_of(SIAM as int)[2] == INDONESIA);
        assert(neighbors_of(NEW_GUINEA as int)[0] == INDONESIA);
        assert(neighbors_of(WESTERN_AUSTRALIA as int)[0] == INDONESIA);
    } else if territory == NEW_GUINEA {
        assert(neighbors_of(INDONESIA as int)[1] == NEW_GUINEA);
        assert(neighbors_of(WESTERN_AUSTRALIA as int)[1] == NEW_GUINEA);
        assert(neighbors_of(EASTERN_AUSTRALIA as int)[1] == NEW_GUINEA);
    } else if territory == PERU {
        assert(neighbors_of(VENEZUELA as int)[2] == PERU);
        assert(neighbors_of(BRAZIL as int)[1] == PERU);
        assert(neighbors_of(ARGENTINA as int)[0] == PERU);
    } else if territory == ARGENTINA {
        assert(neighbors_of(PERU as int)[2] == ARGENTINA);
        assert(neighbors_of(BRAZIL as int)[2] == ARGENTINA);
    } else if territory == CONGO {
        assert(neighbors_of(NORTH_AFRICA as int)[3] == CONGO);
        assert(neighbors_of(SOUTH_AFRICA as int)[0] == CONGO);
        assert(neighbors_of(EAST_AFRICA as int)[1] == CONGO);
    } else if territory == EAST_AFRICA {
        assert(neighbors_of(NORTH_AFRICA as int)[4] == EAST_AFRICA);
        assert(neighbors_of(CONGO as int)[2] == EAST_AFRICA);
        assert(neighbors_of(SOUTH_AFRICA as int)[1] == EAST_AFRICA);
        assert(neighbors_of(MADAGASCAR as int)[1] == EAST_AFRICA);
        assert(neighbors_of(MIDDLE_EAST as int)[4] == EAST_AFRICA);
        assert(neighbors_of(EGYPT as int)[1] == EAST_AFRICA);
    } else if territory == WESTERN_AUSTRALIA {
        assert(neighbors_of(INDONESIA as int)[2] == WESTERN_AUSTRALIA);
        assert(neighbors_of(NEW_GUINEA as int)[1] == WESTERN_AUSTRALIA);
        assert(neighbors_of(EASTERN_AUSTRALIA as int)[0] == WESTERN_AUSTRALIA);
    } else if territory == EASTERN_AUSTRALIA {
        assert(neighbors_of(WESTERN_AUSTRALIA as int)[2] == EASTERN_AUSTRALIA);
        assert(neighbors_of(NEW_GUINEA as int)[2] == EASTERN_AUSTRALIA);
    } else if territory == SOUTH_AFRICA {
        assert(neighbors_of(CONGO as int)[1] == SOUTH_AFRICA);
        assert(neighbors_of(EAST_AFRICA as int)[2] == SOUTH_AFRICA);
        assert(neighbors_of(MADAGASCAR as int)[0] == SOUTH_AFRICA);
    } else if territory == MADAGASCAR {
        assert(neighbors_of(SOUTH_AFRICA as int)[2] == MADAGASCAR);
        assert(neighbors_of(EAST_AFRICA as int)[3] == MADAGASCAR);
    }
}

/// Among the first `upto` territories of the classic board, the number of
/// those that lie in `continent`.
pub open spec fn census(continent: usize, upto: int) -> int
    decreases upto,
{
    if upto <= 0 {
        0
    } else {
        census(continent, upto - 1) + if continent_of(upto - 1) == continent {
            1int
        } else {
            0int
        }
    }
}

/// Every continent of the classic board is as large as the number of its
/// territories.
pub proof fn lemma_census(continent: int)
    requires
        0 <= continent < CONTINENTS,
    ensures
        census(continent as usize, TERRITORIES as int) == continent_size(continent),
{
    reveal_with_fuel(census, 43);
}

/// Territories that lie where the classic board puts them are counted by
/// the census.
pub proof fn lemma_members_by_census(territories: Seq<Territory>, continent: usize, upto: int)
    requires
        0 <= upto <= territories.len(),
        forall|t: int|
            0 <= t < territories.len() ==> (#[trigger] territories[t]).continent == continent_of(t),
    ensures
        members(territories.take(upto), continent) == census(continent, upto),
    decreases upto,
{
    if upto > 0 {
        lemma_members_by_census(territories, continent, upto - 1);
        assert(territories.take(upto) == territories.take(upto - 1).push(territories[upto - 1]));
        lemma_sum_by_push(
            territories.take(upto - 1),
            member_weight(continent),
            territories[upto - 1],
        );
    }
}

/// Whether these are the continents of the classic board for a game of
/// `players` players, nothing counted yet.
pub open spec fn classic_continents(continents: Seq<Continent>, players: nat) -> bool {
    &&& continents.len() == CONTINENTS
    &&& forall|c: int|
        0 <= c < CONTINENTS ==> {
            let continent = #[trigger] continents[c];
            &&& continent.name@ == continent_name(c)
            &&& continent.armies_reward == continent_reward(c)
            &&& continent.size == continent_size(c)
            &&& continent.territories_per_player@ == Seq::new(players, |p: int| 0u32)
        }
}

/// Whether these are the territories of the classic board, nobody on them.
pub open spec fn classic_territories(territories: Seq<Territory>) -> bool {
    &&& territories.len() == TERRITORIES
    &&& forall|t: int|
        0 <= t < TERRITORIES ==> {
            let territory = #[trigger] territories[t];
            &&& territory.name@ == territory_name(t)
            &&& territory.continent == continent_of(t)
            &&& territory.connections@ == neighbors_of(t)
            &&& territory.armies == 0
            &&& territory.player is None
        }
}

/// A board can be made of the continents and territories of the classic
/// board.
pub proof fn lemma_classic_is_sound(
    continents: Seq<Continent>,
    territories: Seq<Territory>,
    players: nat,
)
    requires
        classic_continents(continents, players),
        classic_territories(territories),
    ensures
        sound_layout(continents, territories),
{
    assert forall|c: int| 0 <= c < continents.len() implies #[trigger] continent_sound(
        continents,
        territories,
        c,
    ) by {
        assert(continents[0].territories_per_player@.len() == players);
        lemma_census(c);
        lemma_members_by_census(territories, c as usize, TERRITORIES as int);
        assert(territories.take(TERRITORIES as int) == territories);
    }
    assert forall|t: int| 0 <= t < territories.len() implies #[trigger] territory_sound(
        continents,
        territories,
        t,
    ) by {
        assert forall|k: int|
            0 <= k < territories[t].connections@.len() implies #[trigger] link_sound(
            territories,
            t,
            k,
        ) by {
            lemma_neighbors_agree(t, k);
        }
    }
}

/// Whether `board` is the classic board for a game of `players` players,
/// whoever occupies it: the six continents and the forty-two territories
/// with their names and their borders.
pub open spec fn is_classic(board: BoardStruct, players: nat) -> bool {
    &&& board.board == BoardType::ClassicBoard
    &&& board.seats() == players
    &&& board.extra_info_lines == EXTRA_INFO_LINES
    &&& board.continents@.len() == CONTINENTS
    &&& forall|c: int|
        0 <= c < CONTINENTS ==> {
            let continent = #[trigger] board.continents@[c];
            &&& continent.index == c
            &&& continent.name@ == continent_name(c)
            &&& continent.armies_reward == continent_reward(c)
            &&& continent.size == continent_size(c)
        }
    &&& board.territories@.len() == TERRITORIES
    &&& forall|t: int|
        0 <= t < TERRITORIES ==> {
            let territory = #[trigger] board.territories@[t];
            &&& territory.index == t
            &&& territory.name@ == territory_name(t)
            &&& territory.abbr@ == crate::territory::abbreviation(territory_name(t))
            &&& territory.continent == continent_of(t)
            &&& territory.connections@ == neighbors_of(t)
        }
}

/// The classic board for a game of `players` players, every territory free.
pub fn new(players: usize) -> (board: BoardStruct)
    ensures
        board.wf(),
        board.unoccupied(),
        is_classic(board, players as nat),
        board.extra_info@.len() == 0,
        board.free_territories@ == Seq::new(TERRITORIES as nat, |t: int| t as usize),
{
    let mut continents: Vec<Continent> = Vec::new();
    let mut c: usize = 0;
    while c < CONTINENTS
        invariant
            c <= CONTINENTS,
            continents@.len() == c,
            forall|d: int|
                0 <= d < c ==> {
                    let continent = #[trigger] continents@[d];
                    &&& continent.name@ == continent_name(d)
                    &&& continent.armies_reward == continent_reward(d)
                    &&& continent.size == continent_size(d)
                    &&& continent.territories_per_player@ == Seq::new(
                        players as nat,
                        |p: int| 0u32,
                    )
                },
        decreases CONTINENTS - c,
    {
        continents.push(
            Continent::new(name_continent(c), players, reward_continent(c), size_continent(c)),
        );
        c += 1;
    }
    let mut territories: Vec<Territory> = Vec::new();
    let mut t: usize = 0;
    while t < TERRITORIES
        invariant
            t <= TERRITORIES,
            territories@.len() == t,
            forall|u: int|
                0 <= u < t ==> {
                    let territory = #[trigger] territories@[u];
                    &&& territory.name@ == territory_name(u)
                    &&& territory.abbr@ == crate::territory::abbreviation(territory_name(u))
                    &&& territory.continent == continent_of(u)
                    &&& territory.connections@ == neighbors_of(u)
                    &&& territory.armies == 0
                    &&& territory.player is None
                },
        decreases TERRITORIES - t,
    {
        let mut territory = Territory::new(name_territory(t), locate(t));
        territory.create_connections(neighbors(t));
        territories.push(territory);
        t += 1;
    }
    proof {
        lemma_classic_is_sound(continents@, territories@, players as nat);
    }
    let ghost named = territories@;
    let board = BoardStruct::generate_board(
        BoardType::ClassicBoard,
        continents,
        territories,
        EXTRA_INFO_LINES,
    );
    proof {
        assert forall|t: int| 0 <= t < TERRITORIES implies {
            let territory = #[trigger] board.territories@[t];
            &&& territory.index == t
            &&& territory.name@ == territory_name(t)
            &&& territory.abbr@ == crate::territory::abbreviation(territory_name(t))
            &&& territory.continent == continent_of(t)
            &&& territory.connections@ == neighbors_of(t)
        } by {
            assert(board.territories@[t] == (Territory { index: t as usize, ..named[t] }));
        }
    }
    board
}

} // verus!
