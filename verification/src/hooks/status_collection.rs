//! The damage modifiers that an actor's active statuses contribute.

use std::collections::HashSet;
use vstd::prelude::*;
use crate::arithmetic;
use crate::arithmetic::Arithmetic;
use crate::hooks::status_layout;
use crate::hooks::status_layout::{LayoutCache, StatusInterface, StatusLayout};
use crate::memory;
use crate::memory::{read_process_signed, read_process_word, Memory};
use crate::outcome;

verus! {

/// Functions of the game's status interfaces.
///
/// The game answers as it pleases, so no answer carries a promise.
pub trait StatusCalls<A: Arithmetic>: Memory {
    /// Calls the predicate at `function`: whether the interface applies to `target`.
    fn defense_applies(&self, function: u64, interface: u64, target: u64, context: u64) -> bool;

    /// Calls the getter at `function`: the value that the interface contributes.
    fn status_value(&self, function: u64, interface: u64, context: u64) -> A::Single;
}

/// One contribution of a status interface.
#[derive(Debug)]
pub struct StatusContributionProbe<N> {
    pub class_name: String,
    pub interface: StatusInterface,
    pub category: i32,
    pub value: N,
}

/// What a [`StatusContributionProbe`] says.
pub struct ContributionView<N> {
    pub class_name: Seq<char>,
    pub interface: StatusInterface,
    pub category: i32,
    pub value: N,
}

impl<N> View for StatusContributionProbe<N> {
    type V = ContributionView<N>;

    open spec fn view(&self) -> ContributionView<N> {
        ContributionView {
            class_name: self.class_name@,
            interface: self.interface,
            category: self.category,
            value: self.value,
        }
    }
}

/// What a list of contributions says.
pub open spec fn contribution_views<N>(contributions: Seq<StatusContributionProbe<N>>) -> Seq<
    ContributionView<N>,
> {
    contributions.map_values(|c: StatusContributionProbe<N>| c@)
}

/// Where the list of active statuses starts in a status manager.
pub const STATUS_VECTOR_BEGIN_OFFSET: u64 = 0x18;

/// Where the list of active statuses ends in a status manager.
pub const STATUS_VECTOR_END_OFFSET: u64 = 0x20;

/// The most statuses that are read from one manager.
pub const MAX_ACTIVE_STATUSES: u64 = 128;

/// The category of a contribution whose category cannot be read.
pub const UNKNOWN_CATEGORY: i32 = -1;

/// Which contributions are wanted.
#[derive(Clone, Copy, Debug)]
pub struct Request {
    /// The calculation that the game is in.
    pub context: u64,
    /// The actor that a defense must apply to.
    pub defense_target: Option<u64>,
    /// The one interface that is wanted, if not all are.
    pub only_interface: Option<StatusInterface>,
}

/// The outcomes of asking an interface whether it applies to `target`.
pub open spec fn applies<A: Arithmetic, G: StatusCalls<A>>(
    game: &G,
    function: u64,
    interface: u64,
    target: u64,
    context: u64,
) -> Set<bool> {
    Set::new(
        |r: bool|
            call_ensures(G::defense_applies, (game, function, interface, target, context), r),
    )
}

/// The outcomes of asking an interface for its value.
pub open spec fn values<A: Arithmetic, G: StatusCalls<A>>(
    game: &G,
    function: u64,
    interface: u64,
    context: u64,
) -> Set<A::Single> {
    Set::new(
        |r: A::Single| call_ensures(G::status_value, (game, function, interface, context), r),
    )
}

/// The outcomes of judging whether a value is out of any believable range.
pub open spec fn implausible<A: Arithmetic>(value: A::Single) -> Set<bool> {
    outcome::branch(
        arithmetic::finite::<A>(outcome::exactly(value)),
        arithmetic::exceeds::<A>(
            arithmetic::magnitude::<A>(outcome::exactly(value)),
            arithmetic::hundred::<A>(),
        ),
        outcome::exactly(true),
    )
}

/// The outcomes of taking the value and the category of an interface.
pub open spec fn valued<A: Arithmetic, G: StatusCalls<A>>(
    game: &G,
    class_name: Seq<char>,
    interface: StatusInterface,
    address: u64,
    vtable: u64,
    context: u64,
) -> Set<Option<ContributionView<A::Single>>> {
    outcome::and_if_some(
        memory::word_at(game, vtable.wrapping_add(8)),
        |getter: u64|
            outcome::and_then(
                values::<A, G>(game, getter, address, context),
                |value: A::Single|
                    outcome::branch(
                        implausible::<A>(value),
                        outcome::exactly(None),
                        outcome::mapped(
                            memory::signed_at(game, vtable.wrapping_sub(0x0C)),
                            |category: Option<i32>|
                                Some(
                                    ContributionView {
                                        class_name,
                                        interface,
                                        category: match category {
                                            Some(c) => c,
                                            None => UNKNOWN_CATEGORY,
                                        },
                                        value,
                                    },
                                ),
                        ),
                    ),
            ),
    )
}

/// The outcomes of taking the contribution of one interface of a status.
pub open spec fn contributed<A: Arithmetic, G: StatusCalls<A>>(
    game: &G,
    class_name: Seq<char>,
    interface: StatusInterface,
    address: u64,
    request: Request,
) -> Set<Option<ContributionView<A::Single>>> {
    if request.only_interface matches Some(only) && only != interface {
        outcome::exactly(None)
    } else {
        outcome::and_if_some(
            memory::word_at(game, address),
            |vtable: u64|
                match request.defense_target {
                    Some(target) => if interface == StatusInterface::Defense {
                        outcome::and_if_some(
                            memory::word_at(game, vtable.wrapping_add(0x18)),
                            |predicate: u64|
                                outcome::branch(
                                    applies::<A, G>(
                                        game,
                                        predicate,
                                        address,
                                        target,
                                        request.context,
                                    ),
                                    valued::<A, G>(
                                        game,
                                        class_name,
                                        interface,
                                        address,
                                        vtable,
                                        request.context,
                                    ),
                                    outcome::exactly(None),
                                ),
                        )
                    } else {
                        valued::<A, G>(
                            game,
                            class_name,
                            interface,
                            address,
                            vtable,
                            request.context,
                        )
                    },
                    None => valued::<A, G>(
                        game,
                        class_name,
                        interface,
                        address,
                        vtable,
                        request.context,
                    ),
                },
        )
    }
}

/// A list with one more contribution, if there is one.
pub open spec fn with_contribution<N>(
    found: Seq<ContributionView<N>>,
    contribution: Option<ContributionView<N>>,
) -> Seq<ContributionView<N>> {
    match contribution {
        Some(c) => found.push(c),
        None => found,
    }
}

/// The outcomes of going through the interfaces of a status from `index` on.
pub open spec fn interfaces_from<A: Arithmetic, G: StatusCalls<A>>(
    game: &G,
    layout: status_layout::LayoutView,
    status_address: u64,
    index: nat,
    request: Request,
    found: Seq<ContributionView<A::Single>>,
) -> Set<Seq<ContributionView<A::Single>>>
    decreases layout.interfaces.len() - index,
{
    if index >= layout.interfaces.len() {
        outcome::exactly(found)
    } else {
        let (interface, offset) = layout.interfaces[index as int];
        outcome::and_then(
            contributed::<A, G>(
                game,
                layout.class_name,
                interface,
                status_address.wrapping_add(offset),
                request,
            ),
            |contribution: Option<ContributionView<A::Single>>|
                interfaces_from::<A, G>(
                    game,
                    layout,
                    status_address,
                    index + 1,
                    request,
                    with_contribution(found, contribution),
                ),
        )
    }
}

/// The outcomes of adding what one status contributes: the list and the
/// layout cache afterwards.
pub open spec fn status_outcomes<A: Arithmetic, G: StatusCalls<A>>(
    game: &G,
    cache: status_layout::CacheView,
    status_address: u64,
    request: Request,
    found: Seq<ContributionView<A::Single>>,
) -> Set<(Seq<ContributionView<A::Single>>, status_layout::CacheView)> {
    outcome::and_then(
        memory::word_at(game, status_address),
        |primary_vtable: Option<u64>|
            match primary_vtable {
                None => outcome::exactly((found, cache)),
                Some(vtable) => outcome::and_then(
                    status_layout::lookups(game, cache, vtable),
                    |lookup: (Option<status_layout::LayoutView>, status_layout::CacheView)|
                        match lookup.0 {
                            None => outcome::exactly((found, lookup.1)),
                            Some(layout) => outcome::mapped(
                                interfaces_from::<A, G>(
                                    game,
                                    layout,
                                    status_address,
                                    0,
                                    request,
                                    found,
                                ),
                                |list: Seq<ContributionView<A::Single>>| (list, lookup.1),
                            ),
                        },
                ),
            },
    )
}

/// The outcomes of going through a list of statuses from `index` on. A status
/// that has been `visited` is not asked again.
pub open spec fn statuses_from<A: Arithmetic, G: StatusCalls<A>>(
    game: &G,
    begin: u64,
    index: nat,
    count: nat,
    request: Request,
    visited: Set<u64>,
    found: Seq<ContributionView<A::Single>>,
    cache: status_layout::CacheView,
) -> Set<(Seq<ContributionView<A::Single>>, status_layout::CacheView)>
    decreases count - index,
{
    if index >= count {
        outcome::exactly((found, cache))
    } else {
        outcome::and_then(
            memory::word_at(game, begin.wrapping_add((index * 8) as u64)),
            |status: Option<u64>|
                match status {
                    Some(address) => if address == 0 || visited.contains(address) {
                        statuses_from::<A, G>(
                            game,
                            begin,
                            index + 1,
                            count,
                            request,
                            visited,
                            found,
                            cache,
                        )
                    } else {
                        outcome::and_then(
                            status_outcomes::<A, G>(game, cache, address, request, found),
                            |
                                step: (
                                    Seq<ContributionView<A::Single>>,
                                    status_layout::CacheView,
                                ),
                            |
                                statuses_from::<A, G>(
                                    game,
                                    begin,
                                    index + 1,
                                    count,
                                    request,
                                    visited.insert(address),
                                    step.0,
                                    step.1,
                                ),
                        )
                    },
                    None => statuses_from::<A, G>(
                        game,
                        begin,
                        index + 1,
                        count,
                        request,
                        visited,
                        found,
                        cache,
                    ),
                },
        )
    }
}

/// How many statuses lie between two addresses, if that is a list of words at all.
pub open spec fn status_count(begin: u64, end: u64) -> Option<nat> {
    if begin == 0 || end < begin || (end - begin) % 8 != 0 {
        None
    } else if (end - begin) / 8 < MAX_ACTIVE_STATUSES {
        Some(((end - begin) / 8) as nat)
    } else {
        Some(MAX_ACTIVE_STATUSES as nat)
    }
}

/// The outcomes of collecting the contributions of a manager's statuses: the
/// list and the layout cache afterwards.
pub open spec fn collected<A: Arithmetic, G: StatusCalls<A>>(
    game: &G,
    cache: status_layout::CacheView,
    status_manager: u64,
    request: Request,
) -> Set<(Seq<ContributionView<A::Single>>, status_layout::CacheView)> {
    let nothing = outcome::exactly((Seq::<ContributionView<A::Single>>::empty(), cache));
    if status_manager == 0 {
        nothing
    } else {
        outcome::and_then(
            memory::word_at(game, status_manager.wrapping_add(STATUS_VECTOR_BEGIN_OFFSET)),
            |begin: Option<u64>|
                match begin {
                    None => nothing,
                    Some(begin) => outcome::and_then(
                        memory::word_at(game, status_manager.wrapping_add(STATUS_VECTOR_END_OFFSET)),
                        |end: Option<u64>|
                            match end {
                                None => nothing,
                                Some(end) => match status_count(begin, end) {
                                    None => nothing,
                                    Some(count) => statuses_from::<A, G>(
                                        game,
                                        begin,
                                        0,
                                        count,
                                        request,
                                        Set::empty(),
                                        Seq::empty(),
                                        cache,
                                    ),
                                },
                            },
                    ),
                },
        )
    }
}

/// What an optional contribution says.
pub open spec fn contribution_view<N>(
    contribution: Option<StatusContributionProbe<N>>,
) -> Option<ContributionView<N>> {
    match contribution {
        Some(c) => Some(c@),
        None => None,
    }
}

/// Whether a value is out of any believable range.
pub fn is_implausible<A: Arithmetic>(value: A::Single) -> (result: bool)
    ensures
        implausible::<A>(value).contains(result),
{
    let finite = A::is_finite(value);
    assert(arithmetic::finite::<A>(outcome::exactly(value)).contains(finite));
    if finite {
        A::above(A::magnitude(value), A::hundred())
    } else {
        true
    }
}

/// Takes the value and the category of an interface.
fn value_of<A: Arithmetic, G: StatusCalls<A>>(
    game: &G,
    class_name: &String,
    interface: StatusInterface,
    address: u64,
    vtable: u64,
    context: u64,
) -> (contribution: Option<StatusContributionProbe<A::Single>>)
    ensures
        valued::<A, G>(game, class_name@, interface, address, vtable, context).contains(
            contribution_view(contribution),
        ),
{
    let getter = read_process_word(game, vtable.wrapping_add(8));
    assert(memory::word_at(game, vtable.wrapping_add(8)).contains(getter));
    let getter = match getter {
        Some(function) => function,
        None => return None,
    };
    let value = game.status_value(getter, address, context);
    assert(values::<A, G>(game, getter, address, context).contains(value));
    if is_implausible::<A>(value) {
        return None;
    }
    let category = read_process_signed(game, vtable.wrapping_sub(0x0C));
    assert(memory::signed_at(game, vtable.wrapping_sub(0x0C)).contains(category));
    let category = match category {
        Some(category) => category,
        None => UNKNOWN_CATEGORY,
    };
    Some(StatusContributionProbe { class_name: class_name.clone(), interface, category, value })
}

/// Takes the contribution of one interface of a status.
fn interface_contribution<A: Arithmetic, G: StatusCalls<A>>(
    game: &G,
    class_name: &String,
    interface: StatusInterface,
    address: u64,
    request: &Request,
) -> (contribution: Option<StatusContributionProbe<A::Single>>)
    ensures
        contributed::<A, G>(game, class_name@, interface, address, *request).contains(
            contribution_view(contribution),
        ),
{
    if let Some(only) = request.only_interface {
        if only != interface {
            return None;
        }
    }
    let vtable = read_process_word(game, address);
    assert(memory::word_at(game, address).contains(vtable));
    let vtable = match vtable {
        Some(vtable) => vtable,
        None => return None,
    };
    if interface == StatusInterface::Defense {
        if let Some(target) = request.defense_target {
            let predicate = read_process_word(game, vtable.wrapping_add(0x18));
            assert(memory::word_at(game, vtable.wrapping_add(0x18)).contains(predicate));
            let predicate = match predicate {
                Some(function) => function,
                None => return None,
            };
            let applied = game.defense_applies(predicate, address, target, request.context);
            assert(applies::<A, G>(game, predicate, address, target, request.context).contains(
                applied,
            ));
            if !applied {
                return None;
            }
        }
    }
    value_of::<A, G>(game, class_name, interface, address, vtable, request.context)
}

/// Adds the contributions of the interfaces of a status.
fn collect_interfaces<A: Arithmetic, G: StatusCalls<A>>(
    game: &G,
    layout: &StatusLayout,
    status_address: u64,
    request: &Request,
    contributions: &mut Vec<StatusContributionProbe<A::Single>>,
)
    ensures
        interfaces_from::<A, G>(
            game,
            layout@,
            status_address,
            0,
            *request,
            contribution_views(old(contributions)@),
        ).contains(contribution_views(final(contributions)@)),
{
    let ghost all = interfaces_from::<A, G>(
        game,
        layout@,
        status_address,
        0,
        *request,
        contribution_views(contributions@),
    );
    let mut index: usize = 0;
    while index < layout.interfaces.len()
        invariant
            index <= layout.interfaces@.len(),
            forall|r: Seq<ContributionView<A::Single>>| #[trigger]
                interfaces_from::<A, G>(
                    game,
                    layout@,
                    status_address,
                    index as nat,
                    *request,
                    contribution_views(contributions@),
                ).contains(r) ==> all.contains(r),
        decreases layout.interfaces@.len() - index,
    {
        let ghost before = contribution_views(contributions@);
        let ghost rest = interfaces_from::<A, G>(
            game,
            layout@,
            status_address,
            index as nat,
            *request,
            before,
        );
        let (interface, offset) = layout.interfaces[index];
        let address = status_address.wrapping_add(offset);
        let contribution = interface_contribution::<A, G>(
            game,
            &layout.class_name,
            interface,
            address,
            request,
        );
        let ghost seen = contribution_view(contribution);
        assert(contributed::<A, G>(game, layout.class_name@, interface, address, *request).contains(
            seen,
        ));
        if let Some(contribution) = contribution {
            contributions.push(contribution);
        }
        proof {
            assert(contribution_views(contributions@) =~= with_contribution(before, seen));
            assert forall|r: Seq<ContributionView<A::Single>>| #[trigger]
                interfaces_from::<A, G>(
                    game,
                    layout@,
                    status_address,
                    (index + 1) as nat,
                    *request,
                    contribution_views(contributions@),
                ).contains(r) implies all.contains(r) by {
                assert(rest.contains(r));
            }
        }
        index = index + 1;
    }
    assert(interfaces_from::<A, G>(
        game,
        layout@,
        status_address,
        index as nat,
        *request,
        contribution_views(contributions@),
    ).contains(contribution_views(contributions@)));
}

/// Adds what one status contributes.
fn collect_status<A: Arithmetic, G: StatusCalls<A>>(
    game: &G,
    cache: &mut LayoutCache,
    status_address: u64,
    request: &Request,
    contributions: &mut Vec<StatusContributionProbe<A::Single>>,
)
    ensures
        status_outcomes::<A, G>(
            game,
            old(cache)@,
            status_address,
            *request,
            contribution_views(old(contributions)@),
        ).contains((contribution_views(final(contributions)@), final(cache)@)),
{
    let primary_vtable = read_process_word(game, status_address);
    assert(memory::word_at(game, status_address).contains(primary_vtable));
    let vtable = match primary_vtable {
        Some(vtable) => vtable,
        None => return ,
    };
    let layout = cache.status_layout(game, vtable);
    assert(status_layout::lookups(game, old(cache)@, vtable).contains(
        (status_layout::layout_view(layout), cache@),
    ));
    if let Some(layout) = layout {
        let ghost found = contribution_views(contributions@);
        collect_interfaces::<A, G>(game, &layout, status_address, request, contributions);
        assert(interfaces_from::<A, G>(
            game,
            layout@,
            status_address,
            0,
            *request,
            found,
        ).contains(contribution_views(contributions@)));
    }
}

/// Collects the contributions of a manager's active statuses. Every status is
/// asked once, however often the manager lists it.
pub fn collect_status_contributions<A: Arithmetic, G: StatusCalls<A>>(
    game: &G,
    cache: &mut LayoutCache,
    status_manager: u64,
    request: &Request,
) -> (contributions: Vec<StatusContributionProbe<A::Single>>)
    ensures
        collected::<A, G>(game, old(cache)@, status_manager, *request).contains(
            (contribution_views(contributions@), final(cache)@),
        ),
{
    broadcast use vstd::std_specs::hash::group_hash_axioms;

    let mut contributions: Vec<StatusContributionProbe<A::Single>> = Vec::new();
    assert(contribution_views(contributions@) =~= Seq::empty());
    if status_manager == 0 {
        return contributions;
    }
    let begin_address = status_manager.wrapping_add(STATUS_VECTOR_BEGIN_OFFSET);
    let begin_word = read_process_word(game, begin_address);
    assert(memory::word_at(game, begin_address).contains(begin_word));
    let begin = match begin_word {
        Some(begin) => begin,
        None => return contributions,
    };
    let end_address = status_manager.wrapping_add(STATUS_VECTOR_END_OFFSET);
    let end_word = read_process_word(game, end_address);
    assert(memory::word_at(game, end_address).contains(end_word));
    let end = match end_word {
        Some(end) => end,
        None => return contributions,
    };
    if begin == 0 || end < begin || (end - begin) % 8 != 0 {
        return contributions;
    }
    let listed: u64 = (end - begin) / 8;
    let count: u64 = if listed < MAX_ACTIVE_STATUSES {
        listed
    } else {
        MAX_ACTIVE_STATUSES
    };
    let mut visited: HashSet<u64> = HashSet::new();
    let ghost all = statuses_from::<A, G>(
        game,
        begin,
        0,
        count as nat,
        *request,
        Set::empty(),
        Seq::empty(),
        cache@,
    );
    let ghost whole = collected::<A, G>(game, cache@, status_manager, *request);
    assert(status_count(begin, end) == Some(count as nat));
    assert forall|r: (Seq<ContributionView<A::Single>>, status_layout::CacheView)|
        all.contains(r) implies #[trigger] whole.contains(r) by {}
    let mut index: u64 = 0;
    while index < count
        invariant
            index <= count <= MAX_ACTIVE_STATUSES,
            forall|r: (Seq<ContributionView<A::Single>>, status_layout::CacheView)| #[trigger]
                statuses_from::<A, G>(
                    game,
                    begin,
                    index as nat,
                    count as nat,
                    *request,
                    visited@,
                    contribution_views(contributions@),
                    cache@,
                ).contains(r) ==> all.contains(r),
        decreases count - index,
    {
        let ghost rest = statuses_from::<A, G>(
            game,
            begin,
            index as nat,
            count as nat,
            *request,
            visited@,
            contribution_views(contributions@),
            cache@,
        );
        let ghost seen = visited@;
        let ghost found = contribution_views(contributions@);
        let ghost known = cache@;
        let slot = begin.wrapping_add(index * 8);
        let status = read_process_word(game, slot);
        assert(memory::word_at(game, begin.wrapping_add((index as nat * 8) as u64)).contains(
            status,
        ));
        if let Some(address) = status {
            if address != 0 {
                if visited.insert(address) {
                    assert(!seen.contains(address));
                    collect_status::<A, G>(game, cache, address, request, &mut contributions);
                    assert(status_outcomes::<A, G>(
                        game,
                        known,
                        address,
                        *request,
                        found,
                    ).contains((contribution_views(contributions@), cache@)));
                } else {
                    assert(visited@ =~= seen);
                }
            }
        }
        proof {
            assert forall|r: (Seq<ContributionView<A::Single>>, status_layout::CacheView)|
                #[trigger]
                statuses_from::<A, G>(
                    game,
                    begin,
                    (index + 1) as nat,
                    count as nat,
                    *request,
                    visited@,
                    contribution_views(contributions@),
                    cache@,
                ).contains(r) implies all.contains(r) by {
                assert(rest.contains(r));
            }
        }
        index = index + 1;
    }
    assert(statuses_from::<A, G>(
        game,
        begin,
        index as nat,
        count as nat,
        *request,
        visited@,
        contribution_views(contributions@),
        cache@,
    ).contains((contribution_views(contributions@), cache@)));
    assert(whole.contains((contribution_views(contributions@), cache@)));
    contributions
}

/// Whether a list holds wanted contributions alone.
pub open spec fn are_wanted<N>(found: Seq<ContributionView<N>>, request: Request) -> bool {
    forall|i: int|
        0 <= i < found.len() ==> (request.only_interface matches Some(only) ==> (
        #[trigger] found[i]).interface == only)
}

/// The interfaces of one status add wanted contributions, one each at most.
proof fn lemma_interfaces<A: Arithmetic, G: StatusCalls<A>>(
    game: &G,
    layout: status_layout::LayoutView,
    status_address: u64,
    index: nat,
    request: Request,
    found: Seq<ContributionView<A::Single>>,
    list: Seq<ContributionView<A::Single>>,
)
    requires
        interfaces_from::<A, G>(game, layout, status_address, index, request, found).contains(list),
        index <= layout.interfaces.len(),
        are_wanted(found, request),
    ensures
        are_wanted(list, request),
        found.is_prefix_of(list),
        list.len() <= found.len() + (layout.interfaces.len() - index),
    decreases layout.interfaces.len() - index,
{
    if index < layout.interfaces.len() {
        let (interface, offset) = layout.interfaces[index as int];
        let address = status_address.wrapping_add(offset);
        let contribution = choose|contribution: Option<ContributionView<A::Single>>| #[trigger]
            contributed::<A, G>(
                game,
                layout.class_name,
                interface,
                address,
                request,
            ).contains(contribution) && interfaces_from::<A, G>(
                game,
                layout,
                status_address,
                index + 1,
                request,
                with_contribution(found, contribution),
            ).contains(list);
        lemma_contributed::<A, G>(
            game,
            layout.class_name,
            interface,
            address,
            request,
            contribution,
        );
        lemma_interfaces::<A, G>(
            game,
            layout,
            status_address,
            index + 1,
            request,
            with_contribution(found, contribution),
            list,
        );
    }
}

/// A contribution is one of the interface that was asked, and is wanted.
proof fn lemma_contributed<A: Arithmetic, G: StatusCalls<A>>(
    game: &G,
    class_name: Seq<char>,
    interface: StatusInterface,
    address: u64,
    request: Request,
    contribution: Option<ContributionView<A::Single>>,
)
    requires
        contributed::<A, G>(game, class_name, interface, address, request).contains(contribution),
    ensures
        contribution matches Some(c) ==> c.interface == interface && c.class_name == class_name
            && (request.only_interface matches Some(only) ==> only == interface),
{
}

/// Going through statuses keeps the lists wanted and the cache complete.
proof fn lemma_statuses<A: Arithmetic, G: StatusCalls<A>>(
    game: &G,
    begin: u64,
    index: nat,
    count: nat,
    request: Request,
    visited: Set<u64>,
    found: Seq<ContributionView<A::Single>>,
    cache: status_layout::CacheView,
    list: Seq<ContributionView<A::Single>>,
    after: status_layout::CacheView,
)
    requires
        statuses_from::<A, G>(game, begin, index, count, request, visited, found, cache).contains(
            (list, after),
        ),
        index <= count,
        are_wanted(found, request),
        status_layout::holds_plausible(cache),
    ensures
        are_wanted(list, request),
        found.is_prefix_of(list),
        list.len() <= found.len() + status_layout::MAX_BASE_CLASSES * (count - index),
        status_layout::remembers(after, cache),
        status_layout::holds_plausible(after),
    decreases count - index,
{
    if index < count {
        let place = begin.wrapping_add((index * 8) as u64);
        let status = choose|status: Option<u64>| #[trigger]
            memory::word_at(game, place).contains(status) && (match status {
                Some(address) => if address == 0 || visited.contains(address) {
                    statuses_from::<A, G>(
                        game,
                        begin,
                        index + 1,
                        count,
                        request,
                        visited,
                        found,
                        cache,
                    )
                } else {
                    outcome::and_then(
                        status_outcomes::<A, G>(game, cache, address, request, found),
                        |step: (Seq<ContributionView<A::Single>>, status_layout::CacheView)|
                            statuses_from::<A, G>(
                                game,
                                begin,
                                index + 1,
                                count,
                                request,
                                visited.insert(address),
                                step.0,
                                step.1,
                            ),
                    )
                },
                None => statuses_from::<A, G>(
                    game,
                    begin,
                    index + 1,
                    count,
                    request,
                    visited,
                    found,
                    cache,
                ),
            }).contains((list, after));
        let asks = status matches Some(address) && address != 0 && !visited.contains(address);
        if asks {
            let address = status->Some_0;
            let step = choose|step: (Seq<ContributionView<A::Single>>, status_layout::CacheView)|
                #[trigger]
                status_outcomes::<A, G>(game, cache, address, request, found).contains(step)
                    && statuses_from::<A, G>(
                    game,
                    begin,
                    index + 1,
                    count,
                    request,
                    visited.insert(address),
                    step.0,
                    step.1,
                ).contains((list, after));
            lemma_status::<A, G>(game, cache, address, request, found, step.0, step.1);
            lemma_statuses::<A, G>(
                game,
                begin,
                index + 1,
                count,
                request,
                visited.insert(address),
                step.0,
                step.1,
                list,
                after,
            );
        } else {
            lemma_statuses::<A, G>(
                game,
                begin,
                index + 1,
                count,
                request,
                visited,
                found,
                cache,
                list,
                after,
            );
        }
    }
}

/// One status adds wanted contributions and keeps the cache complete.
proof fn lemma_status<A: Arithmetic, G: StatusCalls<A>>(
    game: &G,
    cache: status_layout::CacheView,
    address: u64,
    request: Request,
    found: Seq<ContributionView<A::Single>>,
    list: Seq<ContributionView<A::Single>>,
    after: status_layout::CacheView,
)
    requires
        status_outcomes::<A, G>(game, cache, address, request, found).contains((list, after)),
        are_wanted(found, request),
        status_layout::holds_plausible(cache),
    ensures
        are_wanted(list, request),
        found.is_prefix_of(list),
        list.len() <= found.len() + status_layout::MAX_BASE_CLASSES,
        status_layout::remembers(after, cache),
        status_layout::holds_plausible(after),
{
    if !(list == found && after == cache) {
        let (vtable, layout) = choose|vtable: u64, layout: Option<status_layout::LayoutView>|
            #[trigger]
            status_layout::lookups(game, cache, vtable).contains((layout, after)) && (match layout {
                None => list == found,
                Some(l) => interfaces_from::<A, G>(game, l, address, 0, request, found).contains(
                    list,
                ),
            });
        status_layout::law_layouts_are_read_once(game, cache, vtable, layout, after);
        match layout {
            Some(l) => {
                assert(after.layouts.contains_key(vtable) && after.layouts[vtable] == l);
                lemma_interfaces::<A, G>(game, l, address, 0, request, found, list);
            },
            None => {},
        }
    }
}

/// Collecting gives the wanted interface alone where one is asked for, few
/// contributions, and forgets no layout.
pub proof fn law_only_wanted_contributions_are_collected<A: Arithmetic, G: StatusCalls<A>>(
    game: &G,
    cache: status_layout::CacheView,
    status_manager: u64,
    request: Request,
    found: Seq<ContributionView<A::Single>>,
    after: status_layout::CacheView,
)
    requires
        status_layout::holds_plausible(cache),
        collected::<A, G>(game, cache, status_manager, request).contains((found, after)),
    ensures
        are_wanted(found, request),
        found.len() <= MAX_ACTIVE_STATUSES * status_layout::MAX_BASE_CLASSES,
        status_layout::remembers(after, cache),
        status_layout::holds_plausible(after),
{
    if !(found == Seq::<ContributionView<A::Single>>::empty() && after == cache) {
        let (begin, count) = choose|begin: u64, count: nat|
            count <= MAX_ACTIVE_STATUSES && #[trigger] statuses_from::<A, G>(
                game,
                begin,
                0,
                count,
                request,
                Set::empty(),
                Seq::empty(),
                cache,
            ).contains((found, after));
        lemma_statuses::<A, G>(
            game,
            begin,
            0,
            count,
            request,
            Set::empty(),
            Seq::empty(),
            cache,
            found,
            after,
        );
        assert(status_layout::MAX_BASE_CLASSES * count <= MAX_ACTIVE_STATUSES
            * status_layout::MAX_BASE_CLASSES) by (nonlinear_arith)
            requires
                count <= MAX_ACTIVE_STATUSES,
        ;
    }
}

/// An interface contributes what its second function answers, unless that is
/// beyond a hundred either way. Its category stands before its functions, and
/// is -1 where it cannot be read.
pub proof fn law_an_interface_contributes_its_value<A: Arithmetic, G: StatusCalls<A>>(
    num: spec_fn(A::Single) -> real,
    wide: spec_fn(A::Double) -> real,
    game: &G,
    class_name: Seq<char>,
    interface: StatusInterface,
    address: u64,
    request: Request,
    vtable: u64,
    getter: u64,
    value: A::Single,
    category: Option<i32>,
    contribution: Option<ContributionView<A::Single>>,
)
    requires
        arithmetic::is_exact::<A>(num, wide),
        request.only_interface is None || request.only_interface == Some(interface),
        request.defense_target is None || interface != StatusInterface::Defense,
        outcome::is_only(memory::word_at(game, address), Some(vtable)),
        outcome::is_only(memory::word_at(game, vtable.wrapping_add(8)), Some(getter)),
        outcome::is_only(values::<A, G>(game, getter, address, request.context), value),
        outcome::is_only(memory::signed_at(game, vtable.wrapping_sub(12)), category),
        contributed::<A, G>(game, class_name, interface, address, request).contains(contribution),
    ensures
        -(100int as real) <= num(value) <= 100int as real ==> (contribution matches Some(c)
            && c.class_name == class_name && c.interface == interface && c.value == value
            && c.category == (match category {
            Some(known) => known,
            None => (-1) as i32,
        })),
        num(value) > 100int as real || num(value) < -(100int as real) ==> contribution is None,
{
    lemma_valued::<A, G>(
        num,
        wide,
        game,
        class_name,
        interface,
        address,
        vtable,
        request.context,
        getter,
        value,
        category,
    );
    assert(valued::<A, G>(
        game,
        class_name,
        interface,
        address,
        vtable,
        request.context,
    ).contains(contribution));
}

/// What an interface with these answers contributes.
pub open spec fn told_by<N>(
    num: spec_fn(N) -> real,
    class_name: Seq<char>,
    interface: StatusInterface,
    value: N,
    category: Option<i32>,
) -> Option<ContributionView<N>> {
    if -(100int as real) <= num(value) <= 100int as real {
        Some(
            ContributionView {
                class_name,
                interface,
                category: match category {
                    Some(known) => known,
                    None => (-1) as i32,
                },
                value,
            },
        )
    } else {
        None
    }
}

/// The value and the category of an interface with known answers.
proof fn lemma_valued<A: Arithmetic, G: StatusCalls<A>>(
    num: spec_fn(A::Single) -> real,
    wide: spec_fn(A::Double) -> real,
    game: &G,
    class_name: Seq<char>,
    interface: StatusInterface,
    address: u64,
    vtable: u64,
    context: u64,
    getter: u64,
    value: A::Single,
    category: Option<i32>,
)
    requires
        arithmetic::is_exact::<A>(num, wide),
        outcome::is_only(memory::word_at(game, vtable.wrapping_add(8)), Some(getter)),
        outcome::is_only(values::<A, G>(game, getter, address, context), value),
        outcome::is_only(memory::signed_at(game, vtable.wrapping_sub(12)), category),
    ensures
        outcome::is_only(
            valued::<A, G>(game, class_name, interface, address, vtable, context),
            told_by(num, class_name, interface, value, category),
        ),
{
}

/// A value that is not finite contributes nothing.
pub proof fn law_only_finite_values_contribute<A: Arithmetic, G: StatusCalls<A>>(
    game: &G,
    class_name: Seq<char>,
    interface: StatusInterface,
    address: u64,
    request: Request,
    contribution: Option<ContributionView<A::Single>>,
)
    requires
        contributed::<A, G>(game, class_name, interface, address, request).contains(contribution),
    ensures
        contribution matches Some(c) ==> arithmetic::finite::<A>(
            outcome::exactly(c.value),
        ).contains(true),
{
}

/// Where a target is named, a defense counts only if its fourth function says
/// that it applies to that target.
pub proof fn law_a_defense_counts_where_it_applies<A: Arithmetic, G: StatusCalls<A>>(
    num: spec_fn(A::Single) -> real,
    wide: spec_fn(A::Double) -> real,
    game: &G,
    class_name: Seq<char>,
    address: u64,
    request: Request,
    target: u64,
    vtable: u64,
    predicate: u64,
    is_applicable: bool,
    getter: u64,
    value: A::Single,
    category: Option<i32>,
    contribution: Option<ContributionView<A::Single>>,
)
    requires
        arithmetic::is_exact::<A>(num, wide),
        request.only_interface is None || request.only_interface == Some(StatusInterface::Defense),
        request.defense_target == Some(target),
        outcome::is_only(memory::word_at(game, address), Some(vtable)),
        outcome::is_only(memory::word_at(game, vtable.wrapping_add(24)), Some(predicate)),
        outcome::is_only(
            applies::<A, G>(game, predicate, address, target, request.context),
            is_applicable,
        ),
        outcome::is_only(memory::word_at(game, vtable.wrapping_add(8)), Some(getter)),
        outcome::is_only(values::<A, G>(game, getter, address, request.context), value),
        outcome::is_only(memory::signed_at(game, vtable.wrapping_sub(12)), category),
        contributed::<A, G>(
            game,
            class_name,
            StatusInterface::Defense,
            address,
            request,
        ).contains(contribution),
    ensures
        !is_applicable ==> contribution is None,
        is_applicable && -(100int as real) <= num(value) <= 100int as real ==> (
        contribution matches Some(c) && c.class_name == class_name && c.interface
            == StatusInterface::Defense && c.value == value && c.category == (match category {
            Some(known) => known,
            None => (-1) as i32,
        })),
{
    lemma_valued::<A, G>(
        num,
        wide,
        game,
        class_name,
        StatusInterface::Defense,
        address,
        vtable,
        request.context,
        getter,
        value,
        category,
    );
}

/// Nothing comes of an interface that is not wanted, or whose functions cannot
/// be read.
pub proof fn law_an_unwanted_interface_contributes_nothing<A: Arithmetic, G: StatusCalls<A>>(
    game: &G,
    class_name: Seq<char>,
    interface: StatusInterface,
    address: u64,
    request: Request,
    contribution: Option<ContributionView<A::Single>>,
)
    requires
        (request.only_interface matches Some(only) && only != interface) || outcome::is_only(
            memory::word_at(game, address),
            None,
        ),
        contributed::<A, G>(game, class_name, interface, address, request).contains(contribution),
    ensures
        contribution is None,
{
}

/// The contributions among answers, in order.
pub open spec fn told<N>(answers: Seq<Option<ContributionView<N>>>) -> Seq<ContributionView<N>>
    decreases answers.len(),
{
    if answers.len() == 0 {
        Seq::empty()
    } else {
        (match answers[0] {
            Some(contribution) => seq![contribution],
            None => Seq::empty(),
        }) + told(answers.drop_first())
    }
}

/// A status adds what its interfaces contribute, in the order of its layout.
/// Each interface lies in the status at its own offset.
pub proof fn law_a_status_adds_what_its_interfaces_contribute<A: Arithmetic, G: StatusCalls<A>>(
    game: &G,
    layout: status_layout::LayoutView,
    status_address: u64,
    request: Request,
    found: Seq<ContributionView<A::Single>>,
    answers: Seq<Option<ContributionView<A::Single>>>,
    list: Seq<ContributionView<A::Single>>,
)
    requires
        answers.len() == layout.interfaces.len(),
        forall|i: int|
            0 <= i < answers.len() ==> outcome::is_only(
                contributed::<A, G>(
                    game,
                    layout.class_name,
                    layout.interfaces[i].0,
                    status_address.wrapping_add(layout.interfaces[i].1),
                    request,
                ),
                #[trigger] answers[i],
            ),
        interfaces_from::<A, G>(game, layout, status_address, 0, request, found).contains(list),
    ensures
        list == found + told(answers),
{
    lemma_interfaces_tell::<A, G>(
        game,
        layout,
        status_address,
        0,
        request,
        found,
        answers,
        list,
    );
    assert(answers.skip(0) =~= answers);
}

/// The interfaces from `index` on add what they contribute.
proof fn lemma_interfaces_tell<A: Arithmetic, G: StatusCalls<A>>(
    game: &G,
    layout: status_layout::LayoutView,
    status_address: u64,
    index: nat,
    request: Request,
    found: Seq<ContributionView<A::Single>>,
    answers: Seq<Option<ContributionView<A::Single>>>,
    list: Seq<ContributionView<A::Single>>,
)
    requires
        index <= layout.interfaces.len(),
        answers.len() == layout.interfaces.len(),
        forall|i: int|
            0 <= i < answers.len() ==> outcome::is_only(
                contributed::<A, G>(
                    game,
                    layout.class_name,
                    layout.interfaces[i].0,
                    status_address.wrapping_add(layout.interfaces[i].1),
                    request,
                ),
                #[trigger] answers[i],
            ),
        interfaces_from::<A, G>(game, layout, status_address, index, request, found).contains(list),
    ensures
        list == found + told(answers.skip(index as int)),
    decreases layout.interfaces.len() - index,
{
    if index >= layout.interfaces.len() {
        assert(answers.skip(index as int) =~= Seq::empty());
        assert(list =~= found + told(answers.skip(index as int)));
    } else {
        let (interface, offset) = layout.interfaces[index as int];
        let contribution = choose|contribution: Option<ContributionView<A::Single>>| #[trigger]
            contributed::<A, G>(
                game,
                layout.class_name,
                interface,
                status_address.wrapping_add(offset),
                request,
            ).contains(contribution) && interfaces_from::<A, G>(
                game,
                layout,
                status_address,
                index + 1,
                request,
                with_contribution(found, contribution),
            ).contains(list);
        assert(contribution == answers[index as int]);
        let rest = answers.skip(index as int);
        assert(rest.drop_first() =~= answers.skip((index + 1) as int));
        assert(rest[0] == contribution);
        lemma_interfaces_tell::<A, G>(
            game,
            layout,
            status_address,
            index + 1,
            request,
            with_contribution(found, contribution),
            answers,
            list,
        );
        assert(list =~= found + told(rest));
    }
}

/// A list of statuses is as long as the words between its ends, and at most 128
/// of them are read. What does not lie in order, a word apart, is no list.
pub proof fn law_a_list_is_counted_in_words(begin: u64, end: u64)
    ensures
        match status_count(begin, end) {
            Some(count) => begin != 0 && (end == begin + 8 * count || count == 128 && end > begin
                + 8 * count && (end - begin) % 8 == 0),
            None => begin == 0 || end < begin || (end - begin) % 8 != 0,
        },
{
}

/// A manager holds the ends of its list of statuses. Nothing is collected where
/// they cannot be read, or where there is no list.
pub proof fn law_a_manager_without_a_list_contributes_nothing<
    A: Arithmetic,
    G: StatusCalls<A>,
>(
    game: &G,
    cache: status_layout::CacheView,
    status_manager: u64,
    request: Request,
    begin: Option<u64>,
    end: Option<u64>,
    found: Seq<ContributionView<A::Single>>,
    after: status_layout::CacheView,
)
    requires
        outcome::is_only(memory::word_at(game, status_manager.wrapping_add(0x18)), begin),
        outcome::is_only(memory::word_at(game, status_manager.wrapping_add(0x20)), end),
        status_manager == 0 || begin is None || end is None || begin == Some(0u64) || end->Some_0
            <= begin->Some_0 || (end->Some_0 - begin->Some_0) % 8 != 0,
        collected::<A, G>(game, cache, status_manager, request).contains((found, after)),
    ensures
        found == Seq::<ContributionView<A::Single>>::empty(),
        after == cache,
{
}

/// The statuses of a list that begins here are asked one after another. One that
/// is listed first adds to what the rest adds; one that is listed again adds
/// nothing more; and a place that holds none is passed over.
pub proof fn law_a_status_is_asked_once<A: Arithmetic, G: StatusCalls<A>>(
    game: &G,
    cache: status_layout::CacheView,
    status_manager: u64,
    request: Request,
    begin: u64,
    first: Option<u64>,
    second: Option<u64>,
    found: Seq<ContributionView<A::Single>>,
    after: status_layout::CacheView,
)
    requires
        status_manager != 0,
        begin != 0,
        begin + 16 <= u64::MAX,
        outcome::is_only(memory::word_at(game, status_manager.wrapping_add(0x18)), Some(begin)),
        outcome::is_only(
            memory::word_at(game, status_manager.wrapping_add(0x20)),
            Some((begin + 16) as u64),
        ),
        outcome::is_only(memory::word_at(game, begin), first),
        outcome::is_only(memory::word_at(game, (begin + 8) as u64), second),
        collected::<A, G>(game, cache, status_manager, request).contains((found, after)),
    ensures
        is_status(first) && (second == first || !is_status(second)) ==> status_outcomes::<A, G>(
            game,
            cache,
            first->Some_0,
            request,
            Seq::empty(),
        ).contains((found, after)),
        !is_status(first) && is_status(second) ==> status_outcomes::<A, G>(
            game,
            cache,
            second->Some_0,
            request,
            Seq::empty(),
        ).contains((found, after)),
        !is_status(first) && !is_status(second) ==> found.len() == 0 && after == cache,
        is_status(first) && is_status(second) && first != second ==> exists|
            step: (Seq<ContributionView<A::Single>>, status_layout::CacheView),
        | #[trigger]
            status_outcomes::<A, G>(game, cache, first->Some_0, request, Seq::empty()).contains(
                step,
            ) && status_outcomes::<A, G>(
                game,
                step.1,
                second->Some_0,
                request,
                step.0,
            ).contains((found, after)),
{
    assert(status_count(begin, (begin + 16) as u64) == Some(2nat));
    assert(begin.wrapping_add((0nat * 8) as u64) == begin);
    assert(begin.wrapping_add((1nat * 8) as u64) == (begin + 8) as u64);
    reveal_with_fuel(statuses_from, 3);
    assert(statuses_from::<A, G>(
        game,
        begin,
        0,
        2,
        request,
        Set::empty(),
        Seq::empty(),
        cache,
    ).contains((found, after)));
}

/// Whether a place in a list holds a status.
pub open spec fn is_status(place: Option<u64>) -> bool {
    place is Some && place != Some(0u64)
}

/// An interface is asked whether it applies to the target and what its value is,
/// each within the calculation that the game is in.
pub proof fn law_an_interface_is_asked_itself<A: Arithmetic, G: StatusCalls<A>>(
    game: &G,
    function: u64,
    interface: u64,
    target: u64,
    context: u64,
    answer: bool,
    number: A::Single,
    is_applicable: bool,
    value: A::Single,
)
    requires
        forall|r: bool| #[trigger]
            call_ensures(G::defense_applies, (game, function, interface, target, context), r)
                ==> r == answer,
        forall|r: A::Single| #[trigger]
            call_ensures(G::status_value, (game, function, interface, context), r) ==> r == number,
        applies::<A, G>(game, function, interface, target, context).contains(is_applicable),
        values::<A, G>(game, function, interface, context).contains(value),
    ensures
        is_applicable == answer,
        value == number,
{
}

/// Contributions are told as they are kept.
pub proof fn law_contributions_are_told_as_they_are_kept<N>(
    contributions: Seq<StatusContributionProbe<N>>,
    i: int,
)
    requires
        0 <= i < contributions.len(),
    ensures
        contribution_views(contributions).len() == contributions.len(),
        contribution_views(contributions)[i].class_name == contributions[i].class_name@,
        contribution_views(contributions)[i].interface == contributions[i].interface,
        contribution_views(contributions)[i].category == contributions[i].category,
        contribution_views(contributions)[i].value == contributions[i].value,
{
}

/// Nothing comes of an interface whose value, or whose say in whether it applies,
/// cannot be asked for.
pub proof fn law_an_interface_that_cannot_be_asked_contributes_nothing<
    A: Arithmetic,
    G: StatusCalls<A>,
>(
    game: &G,
    class_name: Seq<char>,
    interface: StatusInterface,
    address: u64,
    request: Request,
    vtable: u64,
    contribution: Option<ContributionView<A::Single>>,
)
    requires
        outcome::is_only(memory::word_at(game, address), Some(vtable)),
        outcome::is_only(memory::word_at(game, vtable.wrapping_add(8)), None) || (
        request.defense_target is Some && interface == StatusInterface::Defense
            && outcome::is_only(memory::word_at(game, vtable.wrapping_add(24)), None)),
        contributed::<A, G>(game, class_name, interface, address, request).contains(contribution),
    ensures
        contribution is None,
{
}

/// A status whose functions cannot be read adds nothing.
pub proof fn law_an_unreadable_status_adds_nothing<A: Arithmetic, G: StatusCalls<A>>(
    game: &G,
    cache: status_layout::CacheView,
    status_address: u64,
    request: Request,
    found: Seq<ContributionView<A::Single>>,
    list: Seq<ContributionView<A::Single>>,
    after: status_layout::CacheView,
)
    requires
        outcome::is_only(memory::word_at(game, status_address), None),
        status_outcomes::<A, G>(game, cache, status_address, request, found).contains(
            (list, after),
        ),
    ensures
        list == found,
        after == cache,
{
}

/// A status adds the contributions of the interfaces in its layout, which is
/// looked up by its functions.
pub proof fn law_a_status_is_known_by_its_functions<A: Arithmetic, G: StatusCalls<A>>(
    game: &G,
    cache: status_layout::CacheView,
    status_address: u64,
    vtable: u64,
    layout: status_layout::LayoutView,
    request: Request,
    found: Seq<ContributionView<A::Single>>,
    list: Seq<ContributionView<A::Single>>,
    after: status_layout::CacheView,
)
    requires
        outcome::is_only(memory::word_at(game, status_address), Some(vtable)),
        cache.layouts.contains_key(vtable),
        cache.layouts[vtable] == layout,
        status_outcomes::<A, G>(game, cache, status_address, request, found).contains(
            (list, after),
        ),
    ensures
        after == cache,
        interfaces_from::<A, G>(game, layout, status_address, 0, request, found).contains(list),
{
}

} // verus!
