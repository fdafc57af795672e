use game_server::embedding::EmbeddingError;
use game_server::models::ability::{find_base_value, AbilityRequest, SmolAbility};
use game_server::models::creature::{Attribute, CreateRequest, Element};
use game_server::text::same_text;
use game_server::models::player::{Item, Player};
use std::str::FromStr;

fn request(attributes: Vec<(Attribute, u8)>, elements: usize, abilities: usize) -> CreateRequest {
    CreateRequest {
        game_id: 1,
        user_id: 7,
        name: "Blaze".to_string(),
        description: "A fiery lizard".to_string(),
        image: Some("a lizard on fire".to_string()),
        elements: vec![Element::Fire; elements],
        abilities: (0..abilities)
            .map(|i| AbilityRequest { name: format!("a{}", i), description: "d".to_string() })
            .collect(),
        attributes,
    }
}

fn balanced() -> Vec<(Attribute, u8)> {
    vec![
        (Attribute::Strength, 5),
        (Attribute::Defense, 5),
        (Attribute::Perception, 5),
        (Attribute::Intelligence, 5),
        (Attribute::Wisdom, 5),
    ]
}

fn catalog() -> Vec<SmolAbility> {
    vec![
        SmolAbility { name: "Fireball".to_string(), base_value: 30 },
        SmolAbility { name: "Ice Shard".to_string(), base_value: 20 },
        SmolAbility { name: "Fireball".to_string(), base_value: 99 },
    ]
}

#[test]
fn element_names_in_any_case() {
    assert_eq!(Element::parse("fire"), Ok(Element::Fire));
    assert_eq!(Element::parse("WATER"), Ok(Element::Water));
    assert_eq!(Element::from_str("Physical"), Ok(Element::Physical));
    assert_eq!(Element::from_str("mEnTaL"), Ok(Element::Mental));
    assert_eq!(Element::from_str("earth"), Ok(Element::Earth));
    assert_eq!(Element::from_str("Air"), Ok(Element::Air));
}

#[test]
fn unknown_element_is_an_error() {
    assert_eq!(Element::parse("Plasma"), Err("Unknown element: Plasma".to_string()));
    assert_eq!(Element::parse(" fire"), Err("Unknown element:  fire".to_string()));
}

#[test]
fn validate_accepts_a_balanced_request() {
    assert_eq!(request(balanced(), 2, 4).validate(), Ok(()));
    assert_eq!(request(vec![(Attribute::Wisdom, 25)], 0, 4).validate(), Ok(()));
}

#[test]
fn validate_checks_attribute_points() {
    let msg = Err("Attributes must add up to 25".to_string());
    assert_eq!(request(vec![(Attribute::Wisdom, 24)], 1, 4).validate(), msg);
    assert_eq!(request(vec![], 1, 4).validate(), msg);
    let over = vec![(Attribute::Strength, 200), (Attribute::Defense, 200), (Attribute::Wisdom, 0)];
    assert_eq!(request(over, 1, 4).validate(), msg);
    assert_eq!(request(vec![(Attribute::Strength, 26)], 9, 0).validate(), msg);
}

#[test]
fn validate_checks_elements_then_abilities() {
    assert_eq!(
        request(balanced(), 3, 4).validate(),
        Err("There can only be a maximum of 2 elements".to_string())
    );
    assert_eq!(
        request(balanced(), 3, 1).validate(),
        Err("There can only be a maximum of 2 elements".to_string())
    );
    assert_eq!(request(balanced(), 1, 3).validate(), Err("There must be 4 abilities".to_string()));
    assert_eq!(request(balanced(), 0, 5).validate(), Err("There must be 4 abilities".to_string()));
}

#[test]
fn fill_builds_the_matched_ability() {
    let req = AbilityRequest { name: "Flame Wall".to_string(), description: "A wall".to_string() };
    let abilities = vec![("Fireball".to_string(), 1u32), ("Ice Shard".to_string(), 0u32)];
    let elements = vec![("  Fire\n".to_string(), 5u32)];
    let a = req.fill(&catalog(), &abilities, &elements).unwrap();
    assert_eq!(a.name, "Flame Wall");
    assert_eq!(a.description, "A wall");
    assert_eq!(a.base_damage, 30);
    assert_eq!(a.available, (10, 10));
    assert_eq!(a.elements, vec![Element::Fire]);
    assert!(a.modifiers.is_empty());
}

#[test]
fn fill_without_matches_is_no_match() {
    let req = AbilityRequest { name: "x".to_string(), description: "y".to_string() };
    let one = vec![("Fireball".to_string(), 0u32)];
    let fire = vec![("fire".to_string(), 0u32)];
    assert_eq!(req.fill(&catalog(), &vec![], &fire).err(), Some(EmbeddingError::NoMatch));
    assert_eq!(req.fill(&catalog(), &one, &vec![]).err(), Some(EmbeddingError::NoMatch));
}

#[test]
fn fill_with_unknown_labels_is_unknown_label() {
    let req = AbilityRequest { name: "x".to_string(), description: "y".to_string() };
    let unknown = vec![("Meteor".to_string(), 0u32)];
    let known = vec![("Ice Shard".to_string(), 0u32)];
    let fire = vec![("fire".to_string(), 0u32)];
    let plasma = vec![("plasma".to_string(), 0u32)];
    assert_eq!(req.fill(&catalog(), &unknown, &fire).err(), Some(EmbeddingError::UnknownLabel));
    assert_eq!(req.fill(&catalog(), &known, &plasma).err(), Some(EmbeddingError::UnknownLabel));
    assert_eq!(req.fill(&vec![], &known, &fire).err(), Some(EmbeddingError::UnknownLabel));
}

#[test]
fn catalog_lookup_takes_the_first_entry() {
    assert_eq!(find_base_value(&catalog(), &"Fireball".to_string()), Some(30));
    assert_eq!(find_base_value(&catalog(), &"Ice Shard".to_string()), Some(20));
    assert_eq!(find_base_value(&catalog(), &"fireball".to_string()), None);
}

#[test]
fn query_text_joins_name_and_description() {
    let req = AbilityRequest { name: "Fireball".to_string(), description: "Hurls fire".to_string() };
    assert_eq!(req.query_text(), "Fireball: Hurls fire");
}

#[test]
fn transform_builds_the_creature() {
    let req = request(balanced(), 1, 4);
    let creature = req.transform(Vec::new());
    assert_eq!(creature.owner, 7);
    assert_eq!(creature.name, "Blaze");
    assert_eq!(creature.image, Some("a lizard on fire".to_string()));
    assert_eq!(creature.max_health, 100);
    assert_eq!(creature.attributes, balanced());
    assert_eq!(creature.elements, vec![Element::Fire]);
    assert!(creature.abilities.is_empty());
}

#[test]
fn player_new_keeps_its_parts() {
    let p = Player::new("ana".to_string(), Vec::new(), vec![Item {}]);
    assert_eq!(p.name, "ana");
    assert!(p.creatures.is_empty());
    assert_eq!(p.items.len(), 1);
}

#[test]
fn repeated_attributes_are_detected() {
    assert!(request(balanced(), 1, 4).has_unique_attributes());
    let twice = vec![(Attribute::Strength, 10), (Attribute::Strength, 15)];
    assert!(!request(twice, 1, 4).has_unique_attributes());
    assert!(request(vec![], 1, 4).has_unique_attributes());
}

#[test]
fn text_comparison_is_exact() {
    assert!(same_text(&"fire".to_string(), "fire"));
    assert!(!same_text(&"Fire".to_string(), "fire"));
}
