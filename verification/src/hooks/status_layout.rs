//! The class layouts of the game's status effects.
//!
//! A status object says through the run-time type information of its class
//! which damage interfaces it has and at which offsets they lie.

use std::collections::HashMap;
use vstd::prelude::*;
use crate::memory;
use crate::memory::{
    read_process_bytes, read_process_half_word, read_process_signed, read_process_word, Memory,
};
use crate::outcome;
use crate::text;
use crate::text::{same_text, text_from_utf8, trimmed};

verus! {

/// A damage interface that a status class can have.
#[derive(Clone, Copy, Debug, PartialEq, Eq, Hash, Structural)]
pub enum StatusInterface {
    Attack,
    Defense,
    DamageLimit,
    BonusAttack,
    Amplify,
}

/// The interface with this type name.
pub open spec fn interface_named(name: Seq<char>) -> Option<StatusInterface> {
    if name == ".?AVIStatusAttackBuff@@"@ {
        Some(StatusInterface::Attack)
    } else if name == ".?AVIStatusDeffenceBuff@@"@ {
        Some(StatusInterface::Defense)
    } else if name == ".?AVIStatusDamageLimitBuff@@"@ {
        Some(StatusInterface::DamageLimit)
    } else if name == ".?AVIStatusBonusAttackBuff@@"@ {
        Some(StatusInterface::BonusAttack)
    } else if name == ".?AVIStatusAmplifyBuff@@"@ {
        Some(StatusInterface::Amplify)
    } else {
        None
    }
}

impl StatusInterface {
    /// The interface with this type name.
    pub fn from_rtti_name(name: &str) -> (interface: Option<StatusInterface>)
        ensures
            interface == interface_named(name@),
    {
        if same_text(name, ".?AVIStatusAttackBuff@@") {
            Some(StatusInterface::Attack)
        } else if same_text(name, ".?AVIStatusDeffenceBuff@@") {
            Some(StatusInterface::Defense)
        } else if same_text(name, ".?AVIStatusDamageLimitBuff@@") {
            Some(StatusInterface::DamageLimit)
        } else if same_text(name, ".?AVIStatusBonusAttackBuff@@") {
            Some(StatusInterface::BonusAttack)
        } else if same_text(name, ".?AVIStatusAmplifyBuff@@") {
            Some(StatusInterface::Amplify)
        } else {
            None
        }
    }
}

/// The name of a status class and the offsets of its damage interfaces.
#[derive(Debug)]
pub struct StatusLayout {
    pub class_name: String,
    pub interfaces: Vec<(StatusInterface, u64)>,
}

/// What a [`StatusLayout`] says.
#[verifier::ext_equal]
pub struct LayoutView {
    pub class_name: Seq<char>,
    pub interfaces: Seq<(StatusInterface, u64)>,
}

impl View for StatusLayout {
    type V = LayoutView;

    open spec fn view(&self) -> LayoutView {
        LayoutView { class_name: self.class_name@, interfaces: self.interfaces@ }
    }
}

impl StatusLayout {
    /// A copy of the layout.
    pub fn copied(&self) -> (copy: StatusLayout)
        ensures
            copy@ == self@,
    {
        let mut interfaces: Vec<(StatusInterface, u64)> = Vec::new();
        let mut i: usize = 0;
        while i < self.interfaces.len()
            invariant
                i <= self.interfaces@.len(),
                interfaces@ =~= self.interfaces@.take(i as int),
            decreases self.interfaces@.len() - i,
        {
            let (interface, offset) = self.interfaces[i];
            interfaces.push((interface, offset));
            i = i + 1;
        }
        StatusLayout { class_name: self.class_name.clone(), interfaces }
    }
}

/// The bytes before the first NUL.
pub open spec fn until_nul(bytes: Seq<u8>) -> Option<Seq<u8>>
    decreases bytes.len(),
{
    if bytes.len() == 0 {
        None
    } else if bytes[0] == 0 {
        Some(Seq::empty())
    } else {
        match until_nul(bytes.drop_first()) {
            Some(rest) => Some(seq![bytes[0]] + rest),
            None => None,
        }
    }
}

/// The text before the first NUL, if there is one and the bytes before it are UTF-8.
pub open spec fn nul_terminated(bytes: Seq<u8>) -> Option<Seq<char>> {
    match until_nul(bytes) {
        Some(name) => if vstd::utf8::valid_utf8(name) {
            Some(vstd::utf8::decode_utf8(name))
        } else {
            None
        },
        None => None,
    }
}

/// Bytes without a NUL before index `end`, where one stands, end there.
proof fn lemma_until_nul(bytes: Seq<u8>, end: int)
    requires
        0 <= end <= bytes.len(),
        forall|j: int| 0 <= j < end ==> bytes[j] != 0,
    ensures
        end < bytes.len() && bytes[end] == 0 ==> until_nul(bytes) == Some(bytes.take(end)),
        end == bytes.len() ==> until_nul(bytes) is None,
    decreases end,
{
    if end == 0 {
        assert(bytes.take(0) =~= Seq::empty());
    } else {
        lemma_until_nul(bytes.drop_first(), end - 1);
        assert(bytes.take(end) =~= seq![bytes[0]] + bytes.drop_first().take(end - 1));
    }
}

/// How many bytes a type name may take.
pub const RTTI_NAME_BYTES: usize = 128;

/// The outcomes of reading a type name.
pub open spec fn rtti_name_at<M: Memory>(memory: &M, address: u64) -> Set<Option<Seq<char>>> {
    outcome::mapped(
        memory::bytes_at(memory, address, RTTI_NAME_BYTES),
        |bytes: Option<Seq<u8>>|
            match bytes {
                Some(s) => nul_terminated(s),
                None => None,
            },
    )
}

/// Takes the text before the first NUL of `bytes`.
pub fn text_until_nul(bytes: &Vec<u8>) -> (text: Option<String>)
    ensures
        match text {
            Some(s) => nul_terminated(bytes@) == Some(s@),
            None => nul_terminated(bytes@) is None,
        },
{
    let mut name: Vec<u8> = Vec::new();
    let mut i: usize = 0;
    while i < bytes.len()
        invariant
            i <= bytes@.len(),
            name@ =~= bytes@.take(i as int),
            forall|j: int| 0 <= j < i ==> bytes@[j] != 0,
        decreases bytes@.len() - i,
    {
        if bytes[i] == 0 {
            proof {
                lemma_until_nul(bytes@, i as int);
            }
            return text_from_utf8(name);
        }
        name.push(bytes[i]);
        i = i + 1;
    }
    proof {
        lemma_until_nul(bytes@, i as int);
    }
    None
}

/// Reads a type name.
pub fn read_rtti_name<M: Memory>(memory: &M, address: u64) -> (name: Option<String>)
    ensures
        rtti_name_at(memory, address).contains(
            match name {
                Some(s) => Some(s@),
                None => None,
            },
        ),
{
    match read_process_bytes(memory, address, RTTI_NAME_BYTES) {
        Some(bytes) => {
            assert(memory::bytes_at(memory, address, RTTI_NAME_BYTES).contains(Some(bytes@)));
            text_until_nul(&bytes)
        },
        None => {
            assert(memory::bytes_at(memory, address, RTTI_NAME_BYTES).contains(None));
            None
        },
    }
}

/// The outcomes of reading the name and the member offset of the base class
/// with this index.
pub open spec fn base_class_at<M: Memory>(
    memory: &M,
    game_base: u64,
    base_array: u64,
    index: nat,
) -> Set<Option<(Seq<char>, i32)>> {
    outcome::and_if_some(
        memory::half_word_at(memory, base_array.wrapping_add((index * 4) as u64)),
        |descriptor_rva: u32|
            {
                let descriptor = game_base.wrapping_add(descriptor_rva as u64);
                outcome::and_if_some(
                    memory::half_word_at(memory, descriptor),
                    |type_rva: u32|
                        outcome::and_if_some(
                            rtti_name_at(
                                memory,
                                game_base.wrapping_add(type_rva as u64).wrapping_add(0x10),
                            ),
                            |name: Seq<char>|
                                outcome::and_if_some(
                                    memory::signed_at(memory, descriptor.wrapping_add(8)),
                                    |offset: i32| outcome::exactly(Some((name, offset))),
                                ),
                        ),
                )
            },
    )
}

/// Reads the name and the member offset of the base class with this index.
fn read_base_class<M: Memory>(
    memory: &M,
    game_base: u64,
    base_array: u64,
    index: u64,
) -> (class: Option<(String, i32)>)
    requires
        index <= 32,
    ensures
        base_class_at(memory, game_base, base_array, index as nat).contains(
            match class {
                Some((name, offset)) => Some((name@, offset)),
                None => None,
            },
        ),
{
    let descriptor_rva = read_process_half_word(memory, base_array.wrapping_add(index * 4));
    assert(memory::half_word_at(
        memory,
        base_array.wrapping_add((index as nat * 4) as u64),
    ).contains(descriptor_rva));
    let descriptor = match descriptor_rva {
        Some(rva) => game_base.wrapping_add(rva as u64),
        None => return None,
    };
    let type_rva = read_process_half_word(memory, descriptor);
    assert(memory::half_word_at(memory, descriptor).contains(type_rva));
    let type_descriptor = match type_rva {
        Some(rva) => game_base.wrapping_add(rva as u64),
        None => return None,
    };
    let name = match read_rtti_name(memory, type_descriptor.wrapping_add(0x10)) {
        Some(name) => name,
        None => {
            assert(rtti_name_at(memory, type_descriptor.wrapping_add(0x10)).contains(None));
            return None;
        },
    };
    assert(rtti_name_at(memory, type_descriptor.wrapping_add(0x10)).contains(Some(name@)));
    let offset = read_process_signed(memory, descriptor.wrapping_add(8));
    assert(memory::signed_at(memory, descriptor.wrapping_add(8)).contains(offset));
    match offset {
        Some(offset) => Some((name, offset)),
        None => None,
    }
}

/// The largest member offset at which an interface is believed to lie.
pub const MAX_INTERFACE_OFFSET: i32 = 0x400;

/// The most base classes that a class is believed to have.
pub const MAX_BASE_CLASSES: u32 = 32;

/// A layout to which the base class with this index has been added. The first
/// base class is the class itself and gives the name.
pub open spec fn extended(layout: LayoutView, index: nat, name: Seq<char>, offset: i32) -> LayoutView {
    LayoutView {
        class_name: if index == 0 {
            text::without_suffixes(text::without_prefixes(name, ".?AV"@), "@@"@)
        } else {
            layout.class_name
        },
        interfaces: match interface_named(name) {
            Some(interface) => if 0 <= offset <= MAX_INTERFACE_OFFSET {
                layout.interfaces.push((interface, offset as u64))
            } else {
                layout.interfaces
            },
            None => layout.interfaces,
        },
    }
}

/// The outcomes of adding the base classes from `index` on to a layout.
pub open spec fn bases_from<M: Memory>(
    memory: &M,
    game_base: u64,
    base_array: u64,
    index: nat,
    count: nat,
    layout: LayoutView,
) -> Set<Option<LayoutView>>
    decreases count - index,
{
    if index >= count {
        outcome::exactly(Some(layout))
    } else {
        outcome::and_if_some(
            base_class_at(memory, game_base, base_array, index),
            |class: (Seq<char>, i32)|
                bases_from(
                    memory,
                    game_base,
                    base_array,
                    index + 1,
                    count,
                    extended(layout, index, class.0, class.1),
                ),
        )
    }
}

/// The layout of a class without base classes.
pub open spec fn empty_layout() -> LayoutView {
    LayoutView { class_name: Seq::empty(), interfaces: Seq::empty() }
}

/// The outcomes of reading the base classes of a class hierarchy.
pub open spec fn hierarchy_at<M: Memory>(memory: &M, game_base: u64, hierarchy: u64) -> Set<
    Option<LayoutView>,
> {
    outcome::and_if_some(
        memory::half_word_at(memory, hierarchy.wrapping_add(8)),
        |count: u32|
            if count == 0 || count > MAX_BASE_CLASSES {
                outcome::exactly(None)
            } else {
                outcome::and_if_some(
                    memory::half_word_at(memory, hierarchy.wrapping_add(0x0C)),
                    |array_rva: u32|
                        bases_from(
                            memory,
                            game_base,
                            game_base.wrapping_add(array_rva as u64),
                            0,
                            count as nat,
                            empty_layout(),
                        ),
                )
            },
    )
}

/// The outcomes of reading the layout of the class with this virtual table.
pub open spec fn layout_at<M: Memory>(
    memory: &M,
    game_base: Option<u64>,
    primary_vtable: u64,
) -> Set<Option<LayoutView>> {
    match game_base {
        None => outcome::exactly(None),
        Some(base) => outcome::and_if_some(
            memory::word_at(memory, primary_vtable.wrapping_sub(8)),
            |locator: u64|
                outcome::and_if_some(
                    memory::half_word_at(memory, locator),
                    |signature: u32|
                        if signature != 1 {
                            outcome::exactly(None)
                        } else {
                            outcome::and_if_some(
                                memory::half_word_at(memory, locator.wrapping_add(0x10)),
                                |hierarchy_rva: u32|
                                    hierarchy_at(
                                        memory,
                                        base,
                                        base.wrapping_add(hierarchy_rva as u64),
                                    ),
                            )
                        },
                ),
        ),
    }
}

/// What an optional layout says.
pub open spec fn layout_view(layout: Option<StatusLayout>) -> Option<LayoutView> {
    match layout {
        Some(l) => Some(l@),
        None => None,
    }
}

/// Reads the base classes of a class hierarchy.
fn parse_hierarchy<M: Memory>(memory: &M, game_base: u64, hierarchy: u64) -> (layout: Option<
    StatusLayout,
>)
    ensures
        hierarchy_at(memory, game_base, hierarchy).contains(layout_view(layout)),
{
    let base_count = read_process_half_word(memory, hierarchy.wrapping_add(8));
    assert(memory::half_word_at(memory, hierarchy.wrapping_add(8)).contains(base_count));
    let count = match base_count {
        Some(count) => count,
        None => return None,
    };
    if count == 0 || count > MAX_BASE_CLASSES {
        return None;
    }
    let array_rva = read_process_half_word(memory, hierarchy.wrapping_add(0x0C));
    assert(memory::half_word_at(memory, hierarchy.wrapping_add(0x0C)).contains(array_rva));
    let base_array = match array_rva {
        Some(rva) => game_base.wrapping_add(rva as u64),
        None => return None,
    };

    let ghost all = bases_from(memory, game_base, base_array, 0, count as nat, empty_layout());
    let mut layout = StatusLayout { class_name: String::new(), interfaces: Vec::new() };
    let mut index: u32 = 0;
    assert(layout@ =~= empty_layout());
    while index < count
        invariant
            0 < count <= MAX_BASE_CLASSES,
            index <= count,
            memory::half_word_at(memory, hierarchy.wrapping_add(8)).contains(Some(count)),
            memory::half_word_at(memory, hierarchy.wrapping_add(0x0C)).contains(array_rva),
            array_rva matches Some(rva) && base_array == game_base.wrapping_add(rva as u64),
            all == bases_from(memory, game_base, base_array, 0, count as nat, empty_layout()),
            forall|r: Option<LayoutView>| #[trigger]
                bases_from(
                    memory,
                    game_base,
                    base_array,
                    index as nat,
                    count as nat,
                    layout@,
                ).contains(r) ==> all.contains(r),
        decreases count - index,
    {
        let ghost before = layout@;
        let ghost rest = bases_from(
            memory,
            game_base,
            base_array,
            index as nat,
            count as nat,
            before,
        );
        let (name, offset) = match read_base_class(memory, game_base, base_array, index as u64) {
            Some(class) => class,
            None => {
                assert(base_class_at(memory, game_base, base_array, index as nat).contains(None));
                assert(rest.contains(None));
                return None;
            },
        };
        assert(base_class_at(memory, game_base, base_array, index as nat).contains(
            Some((name@, offset)),
        ));
        if index == 0 {
            proof {
                reveal_strlit(".?AV");
                reveal_strlit("@@");
            }
            layout.class_name = trimmed(name.as_str(), ".?AV", "@@");
        }
        if let Some(interface) = StatusInterface::from_rtti_name(name.as_str()) {
            if 0 <= offset && offset <= MAX_INTERFACE_OFFSET {
                layout.interfaces.push((interface, offset as u64));
            }
        }
        proof {
            assert(layout@ =~= extended(before, index as nat, name@, offset));
            assert forall|r: Option<LayoutView>| #[trigger]
                bases_from(
                    memory,
                    game_base,
                    base_array,
                    (index + 1) as nat,
                    count as nat,
                    layout@,
                ).contains(r) implies all.contains(r) by {
                assert(rest.contains(r));
            }
        }
        index = index + 1;
    }
    proof {
        assert(bases_from(
            memory,
            game_base,
            base_array,
            count as nat,
            count as nat,
            layout@,
        ).contains(Some(layout@)));
        assert(all.contains(Some(layout@)));
    }
    Some(layout)
}

/// Reads the layout of the class with this virtual table. `game_base` is where
/// the game's module lies, once that is known.
pub fn parse_status_layout<M: Memory>(
    memory: &M,
    game_base: Option<u64>,
    primary_vtable: u64,
) -> (layout: Option<StatusLayout>)
    ensures
        layout_at(memory, game_base, primary_vtable).contains(layout_view(layout)),
{
    let base = match game_base {
        Some(base) => base,
        None => return None,
    };
    let locator = read_process_word(memory, primary_vtable.wrapping_sub(8));
    assert(memory::word_at(memory, primary_vtable.wrapping_sub(8)).contains(locator));
    let locator = match locator {
        Some(address) => address,
        None => return None,
    };
    let signature = read_process_half_word(memory, locator);
    assert(memory::half_word_at(memory, locator).contains(signature));
    match signature {
        Some(1) => {},
        _ => return None,
    }
    let hierarchy_rva = read_process_half_word(memory, locator.wrapping_add(0x10));
    assert(memory::half_word_at(memory, locator.wrapping_add(0x10)).contains(hierarchy_rva));
    match hierarchy_rva {
        Some(rva) => parse_hierarchy(memory, base, base.wrapping_add(rva as u64)),
        None => None,
    }
}

/// The layouts that have been read so far, by virtual table.
pub struct LayoutCache {
    /// Where the game's module lies, once that is known.
    pub game_base: Option<u64>,
    layouts: HashMap<u64, StatusLayout>,
}

/// What a [`LayoutCache`] holds.
#[verifier::ext_equal]
pub struct CacheView {
    pub game_base: Option<u64>,
    pub layouts: Map<u64, LayoutView>,
}

impl View for LayoutCache {
    type V = CacheView;

    closed spec fn view(&self) -> CacheView {
        CacheView {
            game_base: self.game_base,
            layouts: self.layouts@.map_values(|layout: StatusLayout| layout@),
        }
    }
}

/// The outcomes of looking a layout up: what was found, and the cache afterwards.
pub open spec fn lookups<M: Memory>(memory: &M, cache: CacheView, primary_vtable: u64) -> Set<
    (Option<LayoutView>, CacheView),
> {
    if cache.layouts.contains_key(primary_vtable) {
        outcome::exactly((Some(cache.layouts[primary_vtable]), cache))
    } else {
        outcome::mapped(
            layout_at(memory, cache.game_base, primary_vtable),
            |layout: Option<LayoutView>|
                match layout {
                    Some(l) => (
                        Some(l),
                        CacheView {
                            game_base: cache.game_base,
                            layouts: cache.layouts.insert(primary_vtable, l),
                        },
                    ),
                    None => (None, cache),
                },
        )
    }
}

/// A cache for a game whose module lies at `base`. What is known already stays.
pub open spec fn based(cache: CacheView, base: u64) -> CacheView {
    match cache.game_base {
        Some(_) => cache,
        None => CacheView { game_base: Some(base), ..cache },
    }
}

/// A cache that also knows what another knows. What is known already stays.
pub open spec fn merged(cache: CacheView, other: CacheView) -> CacheView {
    CacheView {
        game_base: if cache.game_base is Some {
            cache.game_base
        } else {
            other.game_base
        },
        layouts: other.layouts.union_prefer_right(cache.layouts),
    }
}

impl LayoutCache {
    /// Notes where the game's module lies, unless that is known already.
    pub fn set_game_base(&mut self, base: u64)
        ensures
            final(self)@ == based(old(self)@, base),
    {
        if self.game_base.is_none() {
            self.game_base = Some(base);
        }
    }

    /// A cache that holds nothing yet.
    pub fn new(game_base: Option<u64>) -> (cache: LayoutCache)
        ensures
            cache@ == (CacheView { game_base, layouts: Map::empty() }),
    {
        let cache = LayoutCache { game_base, layouts: HashMap::new() };
        assert(cache@.layouts =~= Map::empty());
        cache
    }

    /// Takes over what another cache knows, where this one does not know it
    /// already.
    pub fn absorb(&mut self, other: LayoutCache)
        ensures
            final(self)@ == merged(old(self)@, other@),
    {
        broadcast use vstd::std_specs::hash::group_hash_axioms;

        if self.game_base.is_none() {
            self.game_base = other.game_base;
        }
        let ghost known = self.layouts@;
        let ghost game_base = self.game_base;
        let vtables = other.layouts.keys();
        let ghost all = vstd::std_specs::iter::IteratorSpec::remaining(&vtables);
        for vtable in iter: vtables
            invariant
                iter.seq() == all,
                all.unref().to_set() == other.layouts@.dom(),
                self.game_base == game_base,
                forall|v: u64| #[trigger]
                    self.layouts@.contains_key(v) <==> known.contains_key(v)
                        || all.unref().take(iter.index() as int).contains(v),
                forall|v: u64| #[trigger]
                    self.layouts@.contains_key(v) ==> self.layouts@[v]@ == (if known.contains_key(
                        v,
                    ) {
                        known[v]@
                    } else {
                        other.layouts@[v]@
                    }),
        {
            broadcast use vstd::std_specs::hash::group_hash_axioms;

            let ghost i = iter.index() as int;
            proof {
                assert(all.unref()[i] == *vtable);
                assert(all.unref().to_set().contains(*vtable));
                assert(all.unref().take(i + 1) =~= all.unref().take(i).push(*vtable));
                assert(all.unref().take(i).push(*vtable)[i] == *vtable);
            }
            if !self.layouts.contains_key(vtable) {
                if let Some(layout) = other.layouts.get(vtable) {
                    self.layouts.insert(*vtable, layout.copied());
                }
            }
        }
        proof {
            assert(all.unref().take(all.len() as int) =~= all.unref());
            assert forall|v: u64| all.unref().contains(v) <==> other.layouts@.contains_key(v) by {
                assert(all.unref().to_set().contains(v) <==> other.layouts@.dom().contains(v));
            }
            assert(self@.layouts =~= merged(old(self)@, other@).layouts);
        }
    }

    /// The layout of the class with this virtual table, read at most once.
    pub fn status_layout<M: Memory>(&mut self, memory: &M, primary_vtable: u64) -> (layout: Option<
        StatusLayout,
    >)
        ensures
            lookups(memory, old(self)@, primary_vtable).contains(
                (layout_view(layout), final(self)@),
            ),
    {
        broadcast use vstd::std_specs::hash::group_hash_axioms;

        if let Some(layout) = self.layouts.get(&primary_vtable) {
            return Some(layout.copied());
        }
        let layout = parse_status_layout(memory, self.game_base, primary_vtable);
        assert(layout_at(memory, self.game_base, primary_vtable).contains(layout_view(layout)));
        match layout {
            Some(layout) => {
                self.layouts.insert(primary_vtable, layout.copied());
                assert(self@.layouts =~= old(self)@.layouts.insert(primary_vtable, layout@));
                Some(layout)
            },
            None => None,
        }
    }
}

/// Whether a layout is one that a status can have: few base classes, and each
/// interface within the status.
pub open spec fn is_plausible(layout: LayoutView) -> bool {
    &&& layout.interfaces.len() <= MAX_BASE_CLASSES
    &&& forall|i: int|
        0 <= i < layout.interfaces.len() ==> (#[trigger] layout.interfaces[i]).1
            <= MAX_INTERFACE_OFFSET
}

/// Whether all layouts in a cache are ones that a status can have.
pub open spec fn holds_plausible(cache: CacheView) -> bool {
    forall|vtable: u64| #[trigger]
        cache.layouts.contains_key(vtable) ==> is_plausible(cache.layouts[vtable])
}

/// Whether a cache knows all that an earlier one knew.
pub open spec fn remembers(later: CacheView, earlier: CacheView) -> bool {
    &&& later.game_base == earlier.game_base
    &&& forall|vtable: u64| #[trigger]
        earlier.layouts.contains_key(vtable) ==> later.layouts.contains_key(vtable)
            && later.layouts[vtable] == earlier.layouts[vtable]
}

/// Base classes keep a layout plausible.
proof fn lemma_bases<M: Memory>(
    memory: &M,
    game_base: u64,
    base_array: u64,
    index: nat,
    count: nat,
    layout: LayoutView,
    result: LayoutView,
)
    requires
        bases_from(memory, game_base, base_array, index, count, layout).contains(Some(result)),
        index <= count <= MAX_BASE_CLASSES,
        layout.interfaces.len() <= index,
        is_plausible(layout),
    ensures
        is_plausible(result),
    decreases count - index,
{
    if index < count {
        let class = choose|class: (Seq<char>, i32)| #[trigger]
            base_class_at(memory, game_base, base_array, index).contains(Some(class))
                && bases_from(
                memory,
                game_base,
                base_array,
                index + 1,
                count,
                extended(layout, index, class.0, class.1),
            ).contains(Some(result));
        let next = extended(layout, index, class.0, class.1);
        assert forall|i: int| 0 <= i < next.interfaces.len() implies (
        #[trigger] next.interfaces[i]).1 <= MAX_INTERFACE_OFFSET by {
            if i < layout.interfaces.len() {
                assert(next.interfaces[i] == layout.interfaces[i]);
            }
        }
        lemma_bases(memory, game_base, base_array, index + 1, count, next, result);
    }
}

/// A layout that is read is one that a status can have, whatever the memory
/// holds.
pub proof fn law_layouts_are_plausible<M: Memory>(
    memory: &M,
    game_base: Option<u64>,
    primary_vtable: u64,
    layout: LayoutView,
)
    requires
        layout_at(memory, game_base, primary_vtable).contains(Some(layout)),
    ensures
        is_plausible(layout),
{
    let (base, hierarchy, count, array_rva) = choose|
        base: u64,
        hierarchy: u64,
        count: u32,
        array_rva: u32,
    |
        count <= MAX_BASE_CLASSES && #[trigger] memory::half_word_at(
            memory,
            hierarchy.wrapping_add(8),
        ).contains(Some(count)) && #[trigger] bases_from(
            memory,
            base,
            base.wrapping_add(array_rva as u64),
            0,
            count as nat,
            empty_layout(),
        ).contains(Some(layout));
    lemma_bases(
        memory,
        base,
        base.wrapping_add(array_rva as u64),
        0,
        count as nat,
        empty_layout(),
        layout,
    );
}

/// A layout is read once: looking it up forgets nothing, and what has been
/// found is found again without another look at the memory.
pub proof fn law_layouts_are_read_once<M: Memory>(
    memory: &M,
    cache: CacheView,
    primary_vtable: u64,
    layout: Option<LayoutView>,
    after: CacheView,
)
    requires
        lookups(memory, cache, primary_vtable).contains((layout, after)),
    ensures
        remembers(after, cache),
        layout is Some ==> lookups(memory, after, primary_vtable) == outcome::exactly(
            (layout, after),
        ),
        holds_plausible(cache) ==> holds_plausible(after),
{
    if !cache.layouts.contains_key(primary_vtable) {
        match layout {
            Some(l) => {
                law_layouts_are_plausible(memory, cache.game_base, primary_vtable, l);
            },
            None => {},
        }
    }
}

/// A cache that takes over what another knows forgets nothing, knows all that
/// the other knew, and holds plausible layouts if both did.
pub proof fn law_merging_forgets_nothing(cache: CacheView, other: CacheView)
    ensures
        ({
            let all = merged(cache, other);
            &&& cache.game_base is Some ==> remembers(all, cache)
            &&& forall|vtable: u64| #[trigger]
                all.layouts.contains_key(vtable) <==> cache.layouts.contains_key(vtable)
                    || other.layouts.contains_key(vtable)
            &&& holds_plausible(cache) && holds_plausible(other) ==> holds_plausible(all)
        }),
{
}

/// The word by which the game calls an interface.
pub open spec fn word_of(interface: StatusInterface) -> Seq<char> {
    match interface {
        StatusInterface::Attack => "Attack"@,
        StatusInterface::Defense => "Deffence"@,
        StatusInterface::DamageLimit => "DamageLimit"@,
        StatusInterface::BonusAttack => "BonusAttack"@,
        StatusInterface::Amplify => "Amplify"@,
    }
}

/// The type name of an interface: its word between those that all interfaces of
/// statuses have in common.
pub open spec fn type_text(interface: StatusInterface) -> Seq<char> {
    ".?AVIStatus"@ + word_of(interface) + "Buff@@"@
}

/// Every interface is told by its own type name, and by no other.
pub proof fn law_interfaces_are_told_by_their_names(
    name: Seq<char>,
    interface: StatusInterface,
)
    ensures
        interface_named(name) == Some(interface) <==> name == type_text(interface),
        interface_named(name) is None <==> forall|other: StatusInterface|
            name != #[trigger] type_text(other),
{
    reveal_strlit(".?AVIStatus");
    reveal_strlit("Buff@@");
    reveal_strlit("Attack");
    reveal_strlit(".?AVIStatusAttackBuff@@");
    assert(type_text(StatusInterface::Attack) =~= ".?AVIStatusAttackBuff@@"@);
    reveal_strlit("Deffence");
    reveal_strlit(".?AVIStatusDeffenceBuff@@");
    assert(type_text(StatusInterface::Defense) =~= ".?AVIStatusDeffenceBuff@@"@);
    reveal_strlit("DamageLimit");
    reveal_strlit(".?AVIStatusDamageLimitBuff@@");
    assert(type_text(StatusInterface::DamageLimit) =~= ".?AVIStatusDamageLimitBuff@@"@);
    reveal_strlit("BonusAttack");
    reveal_strlit(".?AVIStatusBonusAttackBuff@@");
    assert(type_text(StatusInterface::BonusAttack) =~= ".?AVIStatusBonusAttackBuff@@"@);
    reveal_strlit("Amplify");
    reveal_strlit(".?AVIStatusAmplifyBuff@@");
    assert(type_text(StatusInterface::Amplify) =~= ".?AVIStatusAmplifyBuff@@"@);
    assert(".?AVIStatusAttackBuff@@"@[11] == 'A' && ".?AVIStatusAttackBuff@@"@[12] == 't');
    assert(".?AVIStatusAmplifyBuff@@"@[12] == 'm');
    assert(".?AVIStatusDeffenceBuff@@"@[11] == 'D' && ".?AVIStatusDeffenceBuff@@"@[12] == 'e');
    assert(".?AVIStatusDamageLimitBuff@@"@[12] == 'a');
    assert(".?AVIStatusBonusAttackBuff@@"@[11] == 'B');
    if forall|other: StatusInterface| name != #[trigger] type_text(other) {
        assert(name != type_text(StatusInterface::Attack));
        assert(name != type_text(StatusInterface::Defense));
        assert(name != type_text(StatusInterface::DamageLimit));
        assert(name != type_text(StatusInterface::BonusAttack));
        assert(name != type_text(StatusInterface::Amplify));
    }
}

/// A base class with the name of an interface adds that interface at its
/// offset, if that lies between 0 and 0x400, and any other base class adds
/// nothing. The first base class gives the class its name, without the marks
/// around it, and no other changes it.
pub proof fn law_a_base_class_adds_its_interface(
    layout: LayoutView,
    index: nat,
    name: Seq<char>,
    offset: i32,
    interface: StatusInterface,
    class_name: Seq<char>,
)
    ensures
        name == type_text(interface) && 0 <= offset <= 0x400 ==> extended(
            layout,
            index,
            name,
            offset,
        ).interfaces == layout.interfaces.push((interface, offset as u64)),
        offset < 0 || offset > 0x400 ==> extended(layout, index, name, offset).interfaces
            == layout.interfaces,
        (forall|other: StatusInterface| name != #[trigger] type_text(other)) ==> extended(
            layout,
            index,
            name,
            offset,
        ).interfaces == layout.interfaces,
        index > 0 ==> extended(layout, index, name, offset).class_name == layout.class_name,
        index == 0 && name == ".?AV"@ + class_name + "@@"@ && !text::starts_with(
            class_name + "@@"@,
            ".?AV"@,
        ) && !text::ends_with(class_name, "@@"@) ==> extended(
            layout,
            index,
            name,
            offset,
        ).class_name == class_name,
{
    law_interfaces_are_told_by_their_names(name, interface);
    reveal_strlit(".?AV");
    reveal_strlit("@@");
    if name == ".?AV"@ + class_name + "@@"@ {
        let rest = class_name + "@@"@;
        assert(name =~= ".?AV"@ + rest);
        text::law_marks_are_taken_off(".?AV"@, rest);
        text::law_marks_are_taken_off("@@"@, class_name);
    }
}

/// The name of a class is the text before the first NUL.
pub proof fn law_a_name_ends_at_the_first_nul(name: Seq<u8>, rest: Seq<u8>)
    requires
        !name.contains(0),
    ensures
        nul_terminated(name + seq![0u8] + rest) == if vstd::utf8::valid_utf8(name) {
            Some(vstd::utf8::decode_utf8(name))
        } else {
            None
        },
        nul_terminated(name) is None,
{
    let bytes = name + seq![0u8] + rest;
    assert forall|j: int| 0 <= j < name.len() implies bytes[j] != 0 && name[j] != 0 by {
        assert(bytes[j] == name[j]);
        assert(name.contains(name[j]));
    }
    lemma_until_nul(bytes, name.len() as int);
    lemma_until_nul(name, name.len() as int);
    assert(bytes.take(name.len() as int) =~= name);
}

/// The run-time type information of a class leads from its virtual table to
/// its base classes. One with another signature than 1, without base classes or
/// with more than 32 of them is not believed.
pub proof fn law_type_information_leads_to_the_base_classes<M: Memory>(
    memory: &M,
    base: u64,
    vtable: u64,
    locator: u64,
    signature: u32,
    hierarchy_rva: u32,
    count: u32,
    array_rva: u32,
    layout: Option<LayoutView>,
)
    requires
        outcome::is_only(memory::word_at(memory, vtable.wrapping_sub(8)), Some(locator)),
        outcome::is_only(memory::half_word_at(memory, locator), Some(signature)),
        outcome::is_only(
            memory::half_word_at(memory, locator.wrapping_add(16)),
            Some(hierarchy_rva),
        ),
        outcome::is_only(
            memory::half_word_at(
                memory,
                base.wrapping_add(hierarchy_rva as u64).wrapping_add(8),
            ),
            Some(count),
        ),
        outcome::is_only(
            memory::half_word_at(
                memory,
                base.wrapping_add(hierarchy_rva as u64).wrapping_add(12),
            ),
            Some(array_rva),
        ),
        layout_at(memory, Some(base), vtable).contains(layout),
    ensures
        signature != 1 || count == 0 || count > 32 ==> layout is None,
        signature == 1 && 1 <= count <= 32 ==> bases_from(
            memory,
            base,
            base.wrapping_add(array_rva as u64),
            0,
            count as nat,
            empty_layout(),
        ).contains(layout),
{
}

/// Where a base class is described: the array names a description for each
/// index, and that names the type, which has its name after 16 bytes, and after
/// 8 bytes of its own the offset of the base class.
pub proof fn law_a_base_class_is_read<M: Memory>(
    memory: &M,
    base: u64,
    array: u64,
    index: nat,
    descriptor_rva: u32,
    type_rva: u32,
    name: Seq<char>,
    offset: i32,
    class: Option<(Seq<char>, i32)>,
)
    requires
        index <= 32,
        outcome::is_only(
            memory::half_word_at(memory, array.wrapping_add((4 * index) as u64)),
            Some(descriptor_rva),
        ),
        outcome::is_only(
            memory::half_word_at(memory, base.wrapping_add(descriptor_rva as u64)),
            Some(type_rva),
        ),
        outcome::is_only(
            rtti_name_at(memory, base.wrapping_add(type_rva as u64).wrapping_add(16)),
            Some(name),
        ),
        outcome::is_only(
            memory::signed_at(
                memory,
                base.wrapping_add(descriptor_rva as u64).wrapping_add(8),
            ),
            Some(offset),
        ),
        base_class_at(memory, base, array, index).contains(class),
    ensures
        class == Some((name, offset)),
{
    assert((4 * index) as u64 == (index * 4) as u64);
}

/// A class whose name is longer than 127 bytes has none that could be read.
pub proof fn law_a_name_takes_up_to_128_bytes<M: Memory>(
    memory: &M,
    address: u64,
    bytes: Seq<u8>,
    name: Option<Seq<char>>,
)
    requires
        outcome::is_only(memory::bytes_at(memory, address, 128), Some(bytes)),
        rtti_name_at(memory, address).contains(name),
    ensures
        name == nul_terminated(bytes),
{
}

/// A lookup tells the layout that is known, and else the one that memory shows,
/// which is known from then on. One that shows none changes nothing.
pub proof fn law_a_lookup_tells_the_layout<M: Memory>(
    memory: &M,
    cache: CacheView,
    primary_vtable: u64,
    layout: Option<LayoutView>,
    after: CacheView,
)
    requires
        lookups(memory, cache, primary_vtable).contains((layout, after)),
    ensures
        cache.layouts.contains_key(primary_vtable) ==> layout == Some(
            cache.layouts[primary_vtable],
        ) && after == cache,
        !cache.layouts.contains_key(primary_vtable) ==> layout_at(
            memory,
            cache.game_base,
            primary_vtable,
        ).contains(layout),
        layout is None ==> after == cache,
        layout matches Some(l) ==> after.layouts.contains_key(primary_vtable)
            && after.layouts[primary_vtable] == l && after.game_base == cache.game_base,
{
}

/// Where the game's module lies is noted once and stays; the layouts that are
/// known stay too.
pub proof fn law_the_first_base_stays(cache: CacheView, base: u64, other: u64)
    ensures
        cache.game_base is None ==> based(cache, base).game_base == Some(base),
        cache.game_base is Some ==> based(cache, base).game_base == cache.game_base,
        based(cache, base).layouts == cache.layouts,
        based(based(cache, base), other) == based(cache, base),
{
}

/// A cache takes over what it does not know: the other's base if it has none, and
/// the other's layouts where it has none.
pub proof fn law_merging_takes_over_what_is_new(cache: CacheView, other: CacheView, vtable: u64)
    ensures
        cache.game_base is None ==> merged(cache, other).game_base == other.game_base,
        cache.game_base is Some ==> merged(cache, other).game_base == cache.game_base,
        cache.layouts.contains_key(vtable) ==> merged(cache, other).layouts[vtable]
            == cache.layouts[vtable],
        !cache.layouts.contains_key(vtable) && other.layouts.contains_key(vtable) ==> merged(
            cache,
            other,
        ).layouts[vtable] == other.layouts[vtable],
{
}

/// The layout of a class with these base classes, each added behind those before
/// it.
pub open spec fn described(classes: Seq<(Seq<char>, i32)>) -> LayoutView
    decreases classes.len(),
{
    if classes.len() == 0 {
        empty_layout()
    } else {
        let (name, offset) = classes.last();
        extended(described(classes.drop_last()), (classes.len() - 1) as nat, name, offset)
    }
}

/// A layout takes account of every base class, in order. It is none where one of
/// them cannot be read.
pub proof fn law_a_layout_takes_account_of_every_base_class<M: Memory>(
    memory: &M,
    base: u64,
    array: u64,
    classes: Seq<(Seq<char>, i32)>,
    count: nat,
    layout: Option<LayoutView>,
)
    requires
        classes.len() <= count,
        forall|i: int|
            0 <= i < classes.len() ==> outcome::is_only(
                base_class_at(memory, base, array, i as nat),
                Some(#[trigger] classes[i]),
            ),
        classes.len() < count ==> outcome::is_only(
            base_class_at(memory, base, array, classes.len()),
            None,
        ),
        bases_from(memory, base, array, 0, count, empty_layout()).contains(layout),
    ensures
        classes.len() == count ==> layout == Some(described(classes)),
        classes.len() < count ==> layout is None,
{
    assert(classes.take(0) =~= Seq::empty());
    lemma_described(memory, base, array, classes, 0, count, layout);
}

/// The layout once the base classes below `index` have been taken account of.
proof fn lemma_described<M: Memory>(
    memory: &M,
    base: u64,
    array: u64,
    classes: Seq<(Seq<char>, i32)>,
    index: nat,
    count: nat,
    layout: Option<LayoutView>,
)
    requires
        index <= classes.len() <= count,
        forall|i: int|
            0 <= i < classes.len() ==> outcome::is_only(
                base_class_at(memory, base, array, i as nat),
                Some(#[trigger] classes[i]),
            ),
        classes.len() < count ==> outcome::is_only(
            base_class_at(memory, base, array, classes.len()),
            None,
        ),
        bases_from(
            memory,
            base,
            array,
            index,
            count,
            described(classes.take(index as int)),
        ).contains(layout),
    ensures
        classes.len() == count ==> layout == Some(described(classes)),
        classes.len() < count ==> layout is None,
    decreases count - index,
{
    if index == count {
        assert(classes.take(index as int) =~= classes);
    } else if index < classes.len() {
        let class = classes[index as int];
        let next = classes.take((index + 1) as int);
        assert(next.drop_last() =~= classes.take(index as int));
        assert(next.last() == class);
        let found = choose|found: Option<(Seq<char>, i32)>| #[trigger]
            base_class_at(memory, base, array, index).contains(found) && (match found {
                Some(c) => bases_from(
                    memory,
                    base,
                    array,
                    index + 1,
                    count,
                    extended(described(classes.take(index as int)), index, c.0, c.1),
                ),
                None => outcome::exactly(None),
            }).contains(layout);
        assert(found == Some(class));
        lemma_described(memory, base, array, classes, index + 1, count, layout);
    } else {
        let found = choose|found: Option<(Seq<char>, i32)>| #[trigger]
            base_class_at(memory, base, array, index).contains(found) && (match found {
                Some(c) => bases_from(
                    memory,
                    base,
                    array,
                    index + 1,
                    count,
                    extended(described(classes.take(index as int)), index, c.0, c.1),
                ),
                None => outcome::exactly(None),
            }).contains(layout);
        assert(found is None);
    }
}

} // verus!
