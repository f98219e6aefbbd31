//! Looking for the link from a pet to its player.
//!
//! When the game moves that link, a scan of the pet's memory for the known
//! players shows where it went. Each pet is scanned once.

use std::collections::HashSet;
use vstd::prelude::*;
use crate::hooks::player::{known_player_actor_addresses, PlayerIdentities};
use crate::hooks::{FERRY_GHOST_TYPE, FERRY_SATELLITE_TYPE, SPECIFIED_INSTANCE_OFFSET};
use crate::memory;
use crate::memory::{read_process_word, Memory};
use crate::outcome;

verus! {

/// How many offsets are looked at, eight bytes apart. The last one is `0x3000`.
pub const PROBE_COUNT: u64 = 0x601;

/// The lowest address that an entity may have.
pub const LOWEST_ENTITY_ADDRESS: u64 = 0x1_0000;

/// The highest address that an entity may have.
pub const HIGHEST_ENTITY_ADDRESS: u64 = 0x7FFF_FFFF_FFFF;

/// A place that leads to a known player.
#[derive(Clone, Copy, Debug, PartialEq, Eq, Structural)]
pub enum ParentMatch {
    /// The word at `offset` is the player's actor.
    Direct { offset: u64, player: u64 },
    /// The word at `offset` is an entity whose actor is the player's.
    Entity { offset: u64, entity: u64, player: u64 },
}

/// The actors that have been scanned.
pub struct ParentProbes {
    probed: HashSet<u64>,
}

impl View for ParentProbes {
    type V = Set<u64>;

    closed spec fn view(&self) -> Set<u64> {
        self.probed@
    }
}

impl Default for ParentProbes {
    /// No actor has been scanned.
    fn default() -> (probes: Self)
        ensures
            probes@ == Set::<u64>::empty(),
    {
        ParentProbes { probed: HashSet::new() }
    }
}

/// Whether an actor of this type without a readable link is scanned for one.
pub open spec fn is_probed(source_type_id: u32) -> bool {
    source_type_id == FERRY_GHOST_TYPE || source_type_id == FERRY_SATELLITE_TYPE
}

/// Whether an actor of this type without a readable link is scanned for one.
pub fn should_probe(source_type_id: u32) -> (result: bool)
    ensures
        result == is_probed(source_type_id),
{
    source_type_id == FERRY_GHOST_TYPE || source_type_id == FERRY_SATELLITE_TYPE
}

/// The match of a word that is itself a known player.
pub open spec fn direct_match(known: Set<u64>, offset: u64, candidate: u64) -> Seq<ParentMatch> {
    if known.contains(candidate) {
        seq![ParentMatch::Direct { offset, player: candidate }]
    } else {
        Seq::empty()
    }
}

/// The match of an entity whose actor was read as `specified`.
pub open spec fn entity_match(
    known: Set<u64>,
    offset: u64,
    entity: u64,
    specified: Option<u64>,
) -> Seq<ParentMatch> {
    match specified {
        Some(player) => if known.contains(player) {
            seq![ParentMatch::Entity { offset, entity, player }]
        } else {
            Seq::empty()
        },
        None => Seq::empty(),
    }
}

/// The outcomes of looking at one offset.
pub open spec fn matches_at<M: Memory>(
    memory: &M,
    known: Set<u64>,
    source: u64,
    offset: u64,
) -> Set<Seq<ParentMatch>> {
    outcome::and_then(
        memory::word_at(memory, source.wrapping_add(offset)),
        |word: Option<u64>|
            match word {
                None => outcome::exactly(Seq::<ParentMatch>::empty()),
                Some(candidate) => if LOWEST_ENTITY_ADDRESS <= candidate
                    <= HIGHEST_ENTITY_ADDRESS {
                    outcome::mapped(
                        memory::word_at(memory, candidate.wrapping_add(SPECIFIED_INSTANCE_OFFSET)),
                        |specified: Option<u64>|
                            direct_match(known, offset, candidate) + entity_match(
                                known,
                                offset,
                                candidate,
                                specified,
                            ),
                    )
                } else {
                    outcome::exactly(direct_match(known, offset, candidate))
                },
            },
    )
}

/// The outcomes of looking at the first `count` offsets in turn.
pub open spec fn matches_before<M: Memory>(
    memory: &M,
    known: Set<u64>,
    source: u64,
    count: nat,
) -> Set<Seq<ParentMatch>>
    decreases count,
{
    if count == 0 {
        outcome::exactly(Seq::<ParentMatch>::empty())
    } else {
        let last = (count - 1) as nat;
        outcome::and_then(
            matches_before(memory, known, source, last),
            |earlier: Seq<ParentMatch>|
                outcome::mapped(
                    matches_at(memory, known, source, (8 * last) as u64),
                    |found: Seq<ParentMatch>| earlier + found,
                ),
        )
    }
}

/// Whether a list holds an address.
fn holds(addresses: &Vec<u64>, address: u64) -> (result: bool)
    ensures
        result == addresses@.to_set().contains(address),
{
    let mut i: usize = 0;
    while i < addresses.len()
        invariant
            i <= addresses@.len(),
            forall|j: int| 0 <= j < i ==> addresses@[j] != address,
        decreases addresses@.len() - i,
    {
        if addresses[i] == address {
            assert(addresses@.contains(address));
            return true;
        }
        i = i + 1;
    }
    assert(!addresses@.contains(address));
    false
}

/// Looks at one offset.
fn probe_offset<M: Memory>(memory: &M, known: &Vec<u64>, source: u64, offset: u64) -> (found: Vec<
    ParentMatch,
>)
    ensures
        matches_at(memory, known@.to_set(), source, offset).contains(found@),
{
    let mut found: Vec<ParentMatch> = Vec::new();
    assert(found@ =~= Seq::<ParentMatch>::empty());
    let word = read_process_word(memory, source.wrapping_add(offset));
    assert(memory::word_at(memory, source.wrapping_add(offset)).contains(word));
    let candidate = match word {
        Some(candidate) => candidate,
        None => return found,
    };
    if holds(known, candidate) {
        found.push(ParentMatch::Direct { offset, player: candidate });
    }
    assert(found@ =~= direct_match(known@.to_set(), offset, candidate));
    if candidate < LOWEST_ENTITY_ADDRESS || candidate > HIGHEST_ENTITY_ADDRESS {
        return found;
    }
    let ghost direct = found@;
    let specified = read_process_word(memory, candidate.wrapping_add(SPECIFIED_INSTANCE_OFFSET));
    assert(memory::word_at(memory, candidate.wrapping_add(SPECIFIED_INSTANCE_OFFSET)).contains(
        specified,
    ));
    if let Some(player) = specified {
        if holds(known, player) {
            found.push(ParentMatch::Entity { offset, entity: candidate, player });
        }
    }
    assert(found@ =~= direct + entity_match(known@.to_set(), offset, candidate, specified));
    found
}

/// Scans an actor for words that lead to a known player, unless it has been
/// scanned before. Gives `None` if it has, or if there is no actor.
pub fn probe_parent_offsets<M: Memory>(
    probes: &mut ParentProbes,
    players: &PlayerIdentities,
    memory: &M,
    source: u64,
) -> (result: Option<Vec<ParentMatch>>)
    ensures
        match result {
            None => (source == 0 || old(probes)@.contains(source)) && final(probes)@ == old(probes)@,
            Some(found) => {
                &&& source != 0 && !old(probes)@.contains(source)
                &&& final(probes)@ == old(probes)@.insert(source)
                &&& matches_before(
                    memory,
                    players@.actor_identities.dom(),
                    source,
                    PROBE_COUNT as nat,
                ).contains(found@)
            },
        },
{
    broadcast use vstd::std_specs::hash::group_hash_axioms;

    if source == 0 {
        return None;
    }
    let first_probe = probes.probed.insert(source);
    if !first_probe {
        assert(probes@ =~= old(probes)@);
        return None;
    }
    let known = known_player_actor_addresses(players);
    let mut found: Vec<ParentMatch> = Vec::new();
    let mut index: u64 = 0;
    assert(found@ =~= Seq::<ParentMatch>::empty());
    while index < PROBE_COUNT
        invariant
            index <= PROBE_COUNT,
            matches_before(memory, known@.to_set(), source, index as nat).contains(found@),
        decreases PROBE_COUNT - index,
    {
        let ghost earlier = found@;
        let offset: u64 = 8 * index;
        let mut here = probe_offset(memory, &known, source, offset);
        let ghost added = here@;
        assert(matches_at(memory, known@.to_set(), source, offset).contains(added));
        found.append(&mut here);
        assert(found@ =~= earlier + added);
        assert(outcome::mapped(
            matches_at(memory, known@.to_set(), source, offset),
            |more: Seq<ParentMatch>| earlier + more,
        ).contains(found@));
        index = index + 1;
    }
    Some(found)
}

/// Whether a place that was found leads to a known player: it holds that player's
/// actor, or an entity that links to it. Places lie a word apart, and entities at
/// addresses that user code has.
pub open spec fn leads_to_a_player<M: Memory>(
    memory: &M,
    known: Set<u64>,
    source: u64,
    found: ParentMatch,
) -> bool {
    match found {
        ParentMatch::Direct { offset, player } => {
            &&& offset % 8 == 0
            &&& offset <= 0x3000
            &&& known.contains(player)
            &&& memory::word_at(memory, source.wrapping_add(offset)).contains(Some(player))
        },
        ParentMatch::Entity { offset, entity, player } => {
            &&& offset % 8 == 0
            &&& offset <= 0x3000
            &&& known.contains(player)
            &&& 0x1_0000 <= entity <= 0x7FFF_FFFF_FFFF
            &&& memory::word_at(memory, source.wrapping_add(offset)).contains(Some(entity))
            &&& memory::word_at(memory, entity.wrapping_add(0x70)).contains(Some(player))
        },
    }
}

/// What is found at one offset leads to a known player.
proof fn lemma_matches_at<M: Memory>(
    memory: &M,
    known: Set<u64>,
    source: u64,
    offset: u64,
    found: Seq<ParentMatch>,
)
    requires
        offset % 8 == 0,
        offset <= 0x3000,
        matches_at(memory, known, source, offset).contains(found),
    ensures
        forall|i: int|
            0 <= i < found.len() ==> leads_to_a_player(memory, known, source, #[trigger] found[i]),
        forall|candidate: u64|
            #![trigger known.contains(candidate)]
            outcome::is_only(
                memory::word_at(memory, source.wrapping_add(offset)),
                Some(candidate),
            ) && known.contains(candidate) ==> found.contains(
                ParentMatch::Direct { offset, player: candidate },
            ),
        forall|entity: u64, player: u64|
            #![trigger known.contains(player), memory::word_at(
                memory,
                entity.wrapping_add(0x70),
            )]
            0x1_0000 <= entity <= 0x7FFF_FFFF_FFFF && outcome::is_only(
                memory::word_at(memory, source.wrapping_add(offset)),
                Some(entity),
            ) && outcome::is_only(
                memory::word_at(memory, entity.wrapping_add(0x70)),
                Some(player),
            ) && known.contains(player) ==> found.contains(
                ParentMatch::Entity { offset, entity, player },
            ),
{
    let word = choose|word: Option<u64>| #[trigger]
        memory::word_at(memory, source.wrapping_add(offset)).contains(word) && (match word {
            None => outcome::exactly(Seq::<ParentMatch>::empty()),
            Some(candidate) => if LOWEST_ENTITY_ADDRESS <= candidate <= HIGHEST_ENTITY_ADDRESS {
                outcome::mapped(
                    memory::word_at(memory, candidate.wrapping_add(SPECIFIED_INSTANCE_OFFSET)),
                    |specified: Option<u64>|
                        direct_match(known, offset, candidate) + entity_match(
                            known,
                            offset,
                            candidate,
                            specified,
                        ),
                )
            } else {
                outcome::exactly(direct_match(known, offset, candidate))
            },
        }).contains(found);
    if let Some(candidate) = word {
        let direct = direct_match(known, offset, candidate);
        if LOWEST_ENTITY_ADDRESS <= candidate <= HIGHEST_ENTITY_ADDRESS {
            let specified = choose|specified: Option<u64>| #[trigger]
                memory::word_at(
                    memory,
                    candidate.wrapping_add(SPECIFIED_INSTANCE_OFFSET),
                ).contains(specified) && found == direct + entity_match(
                    known,
                    offset,
                    candidate,
                    specified,
                );
            let behind = entity_match(known, offset, candidate, specified);
            assert forall|i: int| 0 <= i < found.len() implies leads_to_a_player(
                memory,
                known,
                source,
                #[trigger] found[i],
            ) by {
                if i < direct.len() {
                    assert(found[i] == direct[i]);
                } else {
                    assert(found[i] == behind[i - direct.len()]);
                }
            }
            if known.contains(candidate) {
                assert(found[0] == direct[0]);
            }
            if specified matches Some(player) && known.contains(player) {
                assert(found[direct.len() as int] == behind[0]);
            }
        } else if known.contains(candidate) {
            assert(found[0] == direct[0]);
        }
    }
}

/// A scan finds every place up to 0x3000 that leads to a known player, and no
/// other.
pub proof fn law_a_scan_finds_the_players<M: Memory>(
    memory: &M,
    known: Set<u64>,
    source: u64,
    found: Seq<ParentMatch>,
)
    requires
        matches_before(memory, known, source, PROBE_COUNT as nat).contains(found),
    ensures
        forall|i: int|
            0 <= i < found.len() ==> leads_to_a_player(memory, known, source, #[trigger] found[i]),
        forall|offset: u64, player: u64|
            offset % 8 == 0 && offset <= 0x3000 && outcome::is_only(
                memory::word_at(memory, source.wrapping_add(offset)),
                Some(player),
            ) && known.contains(player) ==> #[trigger] found.contains(
                ParentMatch::Direct { offset, player },
            ),
        forall|offset: u64, entity: u64, player: u64|
            offset % 8 == 0 && offset <= 0x3000 && 0x1_0000 <= entity <= 0x7FFF_FFFF_FFFF
                && outcome::is_only(
                memory::word_at(memory, source.wrapping_add(offset)),
                Some(entity),
            ) && outcome::is_only(
                memory::word_at(memory, entity.wrapping_add(0x70)),
                Some(player),
            ) && known.contains(player) ==> #[trigger] found.contains(
                ParentMatch::Entity { offset, entity, player },
            ),
{
    lemma_scan(memory, known, source, 0x601, found);
}

/// What the first `count` offsets lead to.
proof fn lemma_scan<M: Memory>(
    memory: &M,
    known: Set<u64>,
    source: u64,
    count: nat,
    found: Seq<ParentMatch>,
)
    requires
        count <= 0x601,
        matches_before(memory, known, source, count).contains(found),
    ensures
        forall|i: int|
            0 <= i < found.len() ==> leads_to_a_player(memory, known, source, #[trigger] found[i]),
        forall|offset: u64, player: u64|
            offset % 8 == 0 && offset < 8 * count && outcome::is_only(
                memory::word_at(memory, source.wrapping_add(offset)),
                Some(player),
            ) && known.contains(player) ==> #[trigger] found.contains(
                ParentMatch::Direct { offset, player },
            ),
        forall|offset: u64, entity: u64, player: u64|
            offset % 8 == 0 && offset < 8 * count && 0x1_0000 <= entity <= 0x7FFF_FFFF_FFFF
                && outcome::is_only(
                memory::word_at(memory, source.wrapping_add(offset)),
                Some(entity),
            ) && outcome::is_only(
                memory::word_at(memory, entity.wrapping_add(0x70)),
                Some(player),
            ) && known.contains(player) ==> #[trigger] found.contains(
                ParentMatch::Entity { offset, entity, player },
            ),
    decreases count,
{
    if count > 0 {
        let last = (count - 1) as nat;
        let place = (8 * last) as u64;
        let earlier = choose|earlier: Seq<ParentMatch>| #[trigger]
            matches_before(memory, known, source, last).contains(earlier) && outcome::mapped(
                matches_at(memory, known, source, place),
                |more: Seq<ParentMatch>| earlier + more,
            ).contains(found);
        let here = choose|more: Seq<ParentMatch>| #[trigger]
            matches_at(memory, known, source, place).contains(more) && found == earlier + more;
        lemma_scan(memory, known, source, last, earlier);
        lemma_matches_at(memory, known, source, place, here);
        assert forall|i: int| 0 <= i < found.len() implies leads_to_a_player(
            memory,
            known,
            source,
            #[trigger] found[i],
        ) by {
            if i < earlier.len() {
                assert(found[i] == earlier[i]);
            } else {
                assert(found[i] == here[i - earlier.len()]);
            }
        }
        assert forall|m: ParentMatch| earlier.contains(m) || here.contains(
            m,
        ) implies #[trigger] found.contains(m) by {
            if earlier.contains(m) {
                assert(found[earlier.index_of(m)] == m);
            } else {
                assert(found[earlier.len() + here.index_of(m)] == m);
            }
        }
        assert forall|offset: u64, player: u64|
            offset % 8 == 0 && offset < 8 * count && outcome::is_only(
                memory::word_at(memory, source.wrapping_add(offset)),
                Some(player),
            ) && known.contains(player) implies #[trigger] found.contains(
            ParentMatch::Direct { offset, player },
        ) by {
            if offset < 8 * last {
                assert(earlier.contains(ParentMatch::Direct { offset, player }));
            } else {
                assert(offset == place);
                assert(here.contains(ParentMatch::Direct { offset, player }));
            }
        }
        assert forall|offset: u64, entity: u64, player: u64|
            offset % 8 == 0 && offset < 8 * count && 0x1_0000 <= entity <= 0x7FFF_FFFF_FFFF
                && outcome::is_only(
                memory::word_at(memory, source.wrapping_add(offset)),
                Some(entity),
            ) && outcome::is_only(
                memory::word_at(memory, entity.wrapping_add(0x70)),
                Some(player),
            ) && known.contains(player) implies #[trigger] found.contains(
            ParentMatch::Entity { offset, entity, player },
        ) by {
            if offset < 8 * last {
                assert(earlier.contains(ParentMatch::Entity { offset, entity, player }));
            } else {
                assert(offset == place);
                assert(here.contains(ParentMatch::Entity { offset, entity, player }));
            }
        }
    }
}

/// Ferry's pets and their satellites are scanned, and no other actors.
pub proof fn law_only_pets_are_scanned(source_type_id: u32)
    ensures
        is_probed(source_type_id) <==> source_type_id == 0x2AF678E8 || source_type_id
            == 0x8364C8BC,
{
}

} // verus!
