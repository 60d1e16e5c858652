//! The card and NPC catalog that a match draws its hands from.
use vstd::prelude::*;
use std::collections::HashMap;

use crate::card::{Card, Rules, Suit};

verus! {

broadcast use vstd::std_specs::hash::group_hash_axioms;

/// An NPC opponent: up to five fixed cards and five variable ones (an
/// identifier of zero marks an absent card), and the rules it plays by.
#[derive(Copy, Clone, Debug)]
pub struct Npc {
    pub fixed_cards: [i32; 5],
    pub variable_cards: [i32; 5],
    pub rules: Rules,
}

/// The catalog: card names and cards by identifier, and NPCs by name.
pub struct Data {
    pub card_names: HashMap<i32, String>,
    pub cards_by_id: HashMap<i32, Card>,
    /// Each NPC under its name; the first entry of a name is the one used.
    pub npcs_by_name: Vec<(String, Npc)>,
}

/// The card known by identifier `id`: present when the catalog has both a
/// name and a card for it.
pub open spec fn catalog_card(d: &Data, id: i32) -> Option<Card> {
    if d.card_names@.contains_key(id) && d.cards_by_id@.contains_key(id) {
        Some(d.cards_by_id@[id])
    } else {
        None
    }
}

/// The index of the first NPC entry named `name`.
pub open spec fn first_npc_named(d: &Data, name: Seq<char>, i: int) -> bool {
    &&& 0 <= i < d.npcs_by_name@.len()
    &&& d.npcs_by_name@[i].0@ == name
    &&& forall|j: int| 0 <= j < i ==> (#[trigger] d.npcs_by_name@[j]).0@ != name
}

impl Data {
    /// An empty catalog.
    pub fn empty() -> (r: Data)
        ensures
            r.card_names@ == Map::<i32, String>::empty(),
            r.cards_by_id@ == Map::<i32, Card>::empty(),
            r.npcs_by_name@ == Seq::<(String, Npc)>::empty(),
    {
        Data { card_names: HashMap::new(), cards_by_id: HashMap::new(), npcs_by_name: Vec::new() }
    }

    /// The card with identifier `id`, when it has a name and a card.
    pub fn get_card(&self, id: i32) -> (r: Option<&Card>)
        ensures
            match r {
                Some(c) => catalog_card(self, id) == Some(*c),
                None => catalog_card(self, id) is None,
            },
    {
        match self.card_names.get(&id) {
            Some(_) => self.cards_by_id.get(&id),
            None => None,
        }
    }

    /// The name of the card with identifier `id`.
    pub fn card_name(&self, id: i32) -> (r: Option<&String>)
        ensures
            match r {
                Some(n) => self.card_names@.contains_key(id) && self.card_names@[id] == *n,
                None => !self.card_names@.contains_key(id),
            },
    {
        self.card_names.get(&id)
    }

    /// The first NPC named `name`.
    pub fn npc(&self, name: &String) -> (r: Option<&Npc>)
        ensures
            match r {
                Some(n) => exists|i: int| first_npc_named(self, name@, i) && *n == (#[trigger] self.npcs_by_name@[i]).1,
                None => forall|i: int| 0 <= i < self.npcs_by_name@.len() ==> (#[trigger] self.npcs_by_name@[i]).0@ != name@,
            },
    {
        let mut i: usize = 0;
        while i < self.npcs_by_name.len()
            invariant
                0 <= i <= self.npcs_by_name@.len(),
                forall|j: int| 0 <= j < i ==> (#[trigger] self.npcs_by_name@[j]).0@ != name@,
            decreases self.npcs_by_name@.len() - i,
        {
            if self.npcs_by_name[i].0 == *name {
                assert(first_npc_named(self, name@, i as int));
                return Some(&self.npcs_by_name[i].1);
            }
            i += 1;
        }
        None
    }
}

/// The suit of a suit code of the card tables: 0 for none, then Primal,
/// Scion, Beastman and Garlean. Any other code is returned as the error.
pub fn suit_from_code(code: i32) -> (r: Result<Option<Suit>, i32>)
    ensures
        code == 0 ==> r == Ok::<Option<Suit>, i32>(None),
        code == 1 ==> r == Ok::<Option<Suit>, i32>(Some(Suit::Primal)),
        code == 2 ==> r == Ok::<Option<Suit>, i32>(Some(Suit::Scion)),
        code == 3 ==> r == Ok::<Option<Suit>, i32>(Some(Suit::Beastman)),
        code == 4 ==> r == Ok::<Option<Suit>, i32>(Some(Suit::Garlean)),
        (code < 0 || code > 4) ==> r == Err::<Option<Suit>, i32>(code),
{
    match code {
        0 => Ok(None),
        1 => Ok(Some(Suit::Primal)),
        2 => Ok(Some(Suit::Scion)),
        3 => Ok(Some(Suit::Beastman)),
        4 => Ok(Some(Suit::Garlean)),
        _ => Err(code),
    }
}

} // verus!
