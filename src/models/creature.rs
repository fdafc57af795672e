//! Creatures, their elements and attributes, and the request that creates one.
use crate::models::ability::{Ability, AbilityRequest};
use crate::text::{lower_of, lowercase, same_text};
use vstd::prelude::*;
use vstd::string::StringExecFns;

verus! {

/// Attribute points a new creature distributes.
pub const ATTRIBUTE_POINTS: u32 = 25;

/// Most elements a creature can have.
pub const MAX_ELEMENTS: usize = 2;

/// Number of abilities a new creature has.
pub const ABILITY_COUNT: usize = 4;

/// Health of a new creature.
pub const MAX_HEALTH: u32 = 100;

/// The elements of creatures and abilities.
#[derive(Debug, Clone, Copy, PartialEq, Eq, Hash, Structural)]
pub enum Element {
    Physical,
    Mental,
    Fire,
    Water,
    Earth,
    Air,
}

/// The element whose lower-case name is `name`.
pub open spec fn element_named(name: Seq<char>) -> Option<Element> {
    if name == "physical"@ {
        Some(Element::Physical)
    } else if name == "mental"@ {
        Some(Element::Mental)
    } else if name == "fire"@ {
        Some(Element::Fire)
    } else if name == "water"@ {
        Some(Element::Water)
    } else if name == "earth"@ {
        Some(Element::Earth)
    } else if name == "air"@ {
        Some(Element::Air)
    } else {
        None
    }
}

impl Element {
    /// The element whose lower-case name is exactly `name`.
    pub fn from_lowercase(name: &String) -> (r: Option<Element>)
        ensures
            r == element_named(name@),
    {
        if same_text(name, "physical") {
            Some(Element::Physical)
        } else if same_text(name, "mental") {
            Some(Element::Mental)
        } else if same_text(name, "fire") {
            Some(Element::Fire)
        } else if same_text(name, "water") {
            Some(Element::Water)
        } else if same_text(name, "earth") {
            Some(Element::Earth)
        } else if same_text(name, "air") {
            Some(Element::Air)
        } else {
            None
        }
    }

    /// Reads an element name in any letter case.
    pub fn parse(input: &str) -> (r: Result<Element, String>)
        ensures
            match element_named(lower_of(input@)) {
                Some(e) => r == Ok::<Element, String>(e),
                None => r is Err && r->Err_0@ == "Unknown element: "@ + input@,
            },
    {
        let lower = lowercase(input);
        match Element::from_lowercase(&lower) {
            Some(e) => Ok(e),
            None => {
                let mut message = String::from_str("Unknown element: ");
                message.append(input);
                Err(message)
            },
        }
    }
}

impl std::str::FromStr for Element {
    type Err = String;

    fn from_str(input: &str) -> Result<Element, String> {
        Element::parse(input)
    }
}

/// The attributes among which a creature's points are distributed.
#[derive(Debug, Clone, Copy, PartialEq, Eq, Hash, Structural)]
pub enum Attribute {
    Strength,
    Defense,
    Perception,
    Intelligence,
    Wisdom,
}

/// Each attribute appears at most once.
pub open spec fn attributes_unique(attributes: Seq<(Attribute, u8)>) -> bool {
    forall|i: int, j: int|
        0 <= i < j < attributes.len() ==> (#[trigger] attributes[i]).0 != (#[trigger] attributes[j]).0
}

/// Whether each attribute appears at most once in `attributes`.
pub fn unique_attributes(attributes: &Vec<(Attribute, u8)>) -> (r: bool)
    ensures
        r == attributes_unique(attributes@),
{
    let mut i: usize = 0;
    while i < attributes.len()
        invariant
            i <= attributes.len(),
            forall|a: int, b: int|
                0 <= a < i && a < b < attributes.len() ==> (#[trigger] attributes@[a]).0 != (
                #[trigger] attributes@[b]).0,
        decreases attributes.len() - i,
    {
        let mut j: usize = i + 1;
        while j < attributes.len()
            invariant
                i < attributes.len(),
                i < j <= attributes.len(),
                forall|a: int, b: int|
                    0 <= a < i && a < b < attributes.len() ==> (#[trigger] attributes@[a]).0 != (
                    #[trigger] attributes@[b]).0,
                forall|b: int| i < b < j ==> attributes@[i as int].0 != (#[trigger] attributes@[b]).0,
            decreases attributes.len() - j,
        {
            if attributes[i].0 == attributes[j].0 {
                return false;
            }
            j += 1;
        }
        i += 1;
    }
    true
}

/// A creature owned by a player. `attributes` holds each attribute at most
/// once, with the points given to it.
pub struct Creature {
    pub owner: i64,
    pub name: String,
    pub description: String,
    pub image: Option<String>,
    pub max_health: u32,
    pub attributes: Vec<(Attribute, u8)>,
    pub elements: Vec<Element>,
    pub abilities: Vec<Ability>,
}

/// A creature's state in battle.
pub struct State {
    pub health: u32,
    pub abilities: Vec<Ability>,
    pub modifiers: Vec<(i8, Attribute)>,
}

/// A request to create a creature. `attributes` holds each attribute at
/// most once, with the points given to it.
pub struct CreateRequest {
    pub game_id: i64,
    pub user_id: i64,
    pub name: String,
    pub description: String,
    pub image: Option<String>,
    pub elements: Vec<Element>,
    pub abilities: Vec<AbilityRequest>,
    pub attributes: Vec<(Attribute, u8)>,
}

/// Sum of the points in `attributes`.
pub open spec fn attribute_total(attributes: Seq<(Attribute, u8)>) -> int
    decreases attributes.len(),
{
    if attributes.len() == 0 {
        0
    } else {
        attribute_total(attributes.drop_last()) + attributes.last().1 as int
    }
}

proof fn lemma_total_grows(attributes: Seq<(Attribute, u8)>, i: int, j: int)
    requires
        0 <= i <= j <= attributes.len(),
    ensures
        attribute_total(attributes.subrange(0, i)) <= attribute_total(attributes.subrange(0, j)),
    decreases j - i,
{
    if i < j {
        lemma_total_grows(attributes, i, j - 1);
        assert(attributes.subrange(0, j).drop_last() =~= attributes.subrange(0, j - 1));
    }
}

impl Creature {
    /// Each attribute appears at most once.
    pub open spec fn wf(&self) -> bool {
        attributes_unique(self.attributes@)
    }
}

impl CreateRequest {
    /// Each attribute appears at most once.
    pub open spec fn wf(&self) -> bool {
        attributes_unique(self.attributes@)
    }

    /// Whether each attribute appears at most once.
    pub fn has_unique_attributes(&self) -> (r: bool)
        ensures
            r == self.wf(),
    {
        unique_attributes(&self.attributes)
    }

    /// Checks, in this order, that the attribute points add up to
    /// `ATTRIBUTE_POINTS`, that there are at most `MAX_ELEMENTS` elements and
    /// that there are exactly `ABILITY_COUNT` abilities.
    pub fn validate(&self) -> (r: Result<(), String>)
        requires
            self.wf(),
        ensures
            attribute_total(self.attributes@) != 25 ==> r is Err && r->Err_0@
                == "Attributes must add up to 25"@,
            attribute_total(self.attributes@) == 25 && self.elements.len() > 2 ==> r is Err
                && r->Err_0@ == "There can only be a maximum of 2 elements"@,
            attribute_total(self.attributes@) == 25 && self.elements.len() <= 2
                && self.abilities.len() != 4 ==> r is Err && r->Err_0@
                == "There must be 4 abilities"@,
            attribute_total(self.attributes@) == 25 && self.elements.len() <= 2
                && self.abilities.len() == 4 ==> r is Ok,
    {
        let ghost attributes = self.attributes@;
        let mut total: u32 = 0;
        let mut i: usize = 0;
        while i < self.attributes.len()
            invariant
                attributes == self.attributes@,
                i <= attributes.len(),
                total <= ATTRIBUTE_POINTS,
                total == attribute_total(attributes.subrange(0, i as int)),
            decreases attributes.len() - i,
        {
            total = total + self.attributes[i].1 as u32;
            i += 1;
            assert(attributes.subrange(0, i as int).drop_last() =~= attributes.subrange(
                0,
                i as int - 1,
            ));
            if total > ATTRIBUTE_POINTS {
                proof {
                    lemma_total_grows(attributes, i as int, attributes.len() as int);
                    assert(attributes.subrange(0, attributes.len() as int) =~= attributes);
                }
                return Err(String::from_str("Attributes must add up to 25"));
            }
        }
        assert(attributes.subrange(0, i as int) =~= attributes);
        if total != ATTRIBUTE_POINTS {
            return Err(String::from_str("Attributes must add up to 25"));
        }
        if self.elements.len() > MAX_ELEMENTS {
            return Err(String::from_str("There can only be a maximum of 2 elements"));
        }
        if self.abilities.len() != ABILITY_COUNT {
            return Err(String::from_str("There must be 4 abilities"));
        }
        Ok(())
    }

    /// The creature this request describes, with the abilities that were
    /// matched for its ability requests.
    pub fn transform(self, abilities: Vec<Ability>) -> (r: Creature)
        ensures
            self.wf() ==> r.wf(),
            r.owner == self.user_id,
            r.name == self.name,
            r.description == self.description,
            r.image == self.image,
            r.max_health == MAX_HEALTH,
            r.attributes == self.attributes,
            r.elements == self.elements,
            r.abilities == abilities,
    {
        Creature {
            owner: self.user_id,
            name: self.name,
            description: self.description,
            image: self.image,
            max_health: MAX_HEALTH,
            attributes: self.attributes,
            elements: self.elements,
            abilities,
        }
    }
}

} // verus!
