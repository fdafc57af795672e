//! Abilities, and the matching of a free-text ability request against the
//! catalog of known abilities.
use crate::embedding::EmbeddingError;
use crate::models::creature::{element_named, Attribute, Element};
use crate::text::{lower_of, lowercase, trim, trim_of};
use vstd::prelude::*;
use vstd::string::StringExecFns;

verus! {

/// Uses of an ability that a new ability starts with, out of as many.
pub const INITIAL_USES: u8 = 10;

/// An entry of the catalog of known abilities.
pub struct SmolAbility {
    pub name: String,
    pub base_value: u8,
}

/// An ability of a creature.
pub struct Ability {
    pub name: String,
    pub description: String,
    pub base_damage: u16,
    /// (current, max)
    pub available: (u8, u8),
    pub elements: Vec<Element>,
    pub modifiers: Vec<(i8, Attribute)>,
}

/// The kinds of ability.
#[derive(Debug, Clone, Copy, PartialEq, Eq, Structural)]
pub enum AbilityCategory {
    Attack,
    Defense,
    Utility,
}

/// A free-text ability, to be matched against the catalog.
pub struct AbilityRequest {
    pub name: String,
    pub description: String,
}

/// Base value of the first catalog entry named `name`.
pub open spec fn base_value_of(catalog: Seq<SmolAbility>, name: Seq<char>) -> Option<u8>
    decreases catalog.len(),
{
    if catalog.len() == 0 {
        None
    } else if catalog[0].name@ == name {
        Some(catalog[0].base_value)
    } else {
        base_value_of(catalog.drop_first(), name)
    }
}

/// The element that a search label stands for: trimmed, lower-cased, and
/// read as an element name in any letter case.
pub open spec fn matched_element(label: Seq<char>) -> Option<Element> {
    element_named(lower_of(lower_of(trim_of(label))))
}

/// `a` is the ability that `request` becomes with the given base value and
/// element.
pub open spec fn is_filled(request: AbilityRequest, base_value: u8, element: Element, a: Ability) -> bool {
    &&& a.name@ == request.name@
    &&& a.description@ == request.description@
    &&& a.base_damage == base_value as u16
    &&& a.available == (INITIAL_USES, INITIAL_USES)
    &&& a.elements@ == seq![element]
    &&& a.modifiers@.len() == 0
}

/// Base value of the first catalog entry named `name`.
pub fn find_base_value(catalog: &Vec<SmolAbility>, name: &String) -> (r: Option<u8>)
    ensures
        r == base_value_of(catalog@, name@),
{
    let mut i: usize = 0;
    assert(catalog@.subrange(0, catalog.len() as int) =~= catalog@);
    while i < catalog.len()
        invariant
            i <= catalog.len(),
            base_value_of(catalog@, name@) == base_value_of(
                catalog@.subrange(i as int, catalog.len() as int),
                name@,
            ),
        decreases catalog.len() - i,
    {
        let ghost rest = catalog@.subrange(i as int, catalog.len() as int);
        assert(rest[0] == catalog@[i as int]);
        if catalog[i].name == *name {
            return Some(catalog[i].base_value);
        }
        assert(rest.drop_first() =~= catalog@.subrange(i as int + 1, catalog.len() as int));
        i += 1;
    }
    None
}

impl AbilityRequest {
    /// The text whose embedding stands for this request: "name: description".
    pub fn query_text(&self) -> (r: String)
        ensures
            r@ == self.name@ + ": "@ + self.description@,
    {
        let mut text = self.name.clone();
        text.append(": ");
        text.append(self.description.as_str());
        text
    }

    /// The ability this request becomes, given the searches for its text in
    /// the ability and the element partitions, best first: the best ability
    /// label is looked up in `abilities`, the best element label is read as an
    /// element. An empty search fails with `NoMatch`; a best label that names
    /// no catalog entry or no element fails with `UnknownLabel`.
    pub fn fill(
        &self,
        abilities: &Vec<SmolAbility>,
        ability_matches: &Vec<(String, u32)>,
        element_matches: &Vec<(String, u32)>,
    ) -> (r: Result<Ability, EmbeddingError>)
        ensures
            ability_matches.len() == 0 || element_matches.len() == 0 ==> r == Err::<
                Ability,
                EmbeddingError,
            >(EmbeddingError::NoMatch),
            ability_matches.len() > 0 && element_matches.len() > 0 ==> match (
                base_value_of(abilities@, ability_matches@[0].0@),
                matched_element(element_matches@[0].0@),
            ) {
                (Some(b), Some(e)) => r is Ok && is_filled(*self, b, e, r->Ok_0),
                _ => r == Err::<Ability, EmbeddingError>(EmbeddingError::UnknownLabel),
            },
    {
        if ability_matches.len() == 0 || element_matches.len() == 0 {
            return Err(EmbeddingError::NoMatch);
        }
        let base_value = find_base_value(abilities, &ability_matches[0].0);
        let element_name = lowercase(trim(element_matches[0].0.as_str()));
        let element = Element::parse(element_name.as_str());
        match (base_value, element) {
            (Some(b), Ok(e)) => {
                let mut elements: Vec<Element> = Vec::new();
                elements.push(e);
                let a = Ability {
                    name: self.name.clone(),
                    description: self.description.clone(),
                    base_damage: b as u16,
                    available: (INITIAL_USES, INITIAL_USES),
                    elements,
                    modifiers: Vec::new(),
                };
                assert(a.elements@ =~= seq![e]);
                Ok(a)
            },
            _ => Err(EmbeddingError::UnknownLabel),
        }
    }
}

} // verus!
