use rist::continent::{generate_ids, Continent};

/// Test the continent display visually
#[test]
fn test_continent_display() {
    let continent = Continent::new("TestContinent", 4, 0, 6);
    println!("{:#?}", continent);
    assert_eq!(continent.name, "TestContinent");
    assert_eq!(continent.index, 0);
    assert_eq!(continent.territories_per_player, vec![0, 0, 0, 0]);
    assert_eq!(continent.armies_reward, 0);
    assert_eq!(continent.size, 6);
}

/// Test the continent numbering
#[test]
fn test_continent_id_generation() {
    let continent1 = Continent::new("TestContinent1", 4, 0, 4);
    let continent2 = Continent::new("TestContinent2", 4, 0, 5);
    let continent3 = Continent::new("TestContinent3", 4, 0, 6);

    let mut continents = vec![continent1, continent2, continent3];
    generate_ids(&mut continents);

    assert_eq!(continents[0].index, 0);
    assert_eq!(continents[1].index, 1);
    assert_eq!(continents[2].index, 2);
    assert_eq!(continents[2].name, "TestContinent3");
    assert_eq!(continents[1].size, 5);
}

#[test]
fn a_continent_for_no_players_has_no_counters() {
    let continent = Continent::new("Empty", 0, 2, 1);
    assert!(continent.territories_per_player.is_empty());
}
