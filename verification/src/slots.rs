//! Slot ranges as a node announces them, and the slot map built from them.

use vstd::prelude::*;
use vstd::seq_lib::to_multiset_insert;

verus! {

/// The views of a sequence of strings, element by element.
pub open spec fn names_view(names: Seq<String>) -> Seq<Seq<char>> {
    Seq::new(names.len(), |i: int| names[i]@)
}

/// One announced range of slots: the inclusive bounds, the endpoint of the
/// master that serves the range, and the endpoints of its replicas.
#[derive(Debug)]
pub struct Slot {
    start: u16,
    end: u16,
    master: String,
    replicas: Vec<String>,
}

/// Mathematical model of a `Slot`.
pub struct SlotView {
    pub start: u16,
    pub end: u16,
    pub master: Seq<char>,
    pub replicas: Seq<Seq<char>>,
}

impl View for Slot {
    type V = SlotView;

    closed spec fn view(&self) -> SlotView {
        SlotView {
            start: self.start,
            end: self.end,
            master: self.master@,
            replicas: names_view(self.replicas@),
        }
    }
}

impl Slot {
    /// Makes a range from its parts.
    pub fn new(start: u16, end: u16, master: String, replicas: Vec<String>) -> (slot: Slot)
        ensures
            slot@ == (SlotView {
                start,
                end,
                master: master@,
                replicas: names_view(replicas@),
            }),
    {
        Slot { start, end, master, replicas }
    }

    /// First slot of the range.
    pub fn start(&self) -> (start: u16)
        ensures
            start == self@.start,
    {
        self.start
    }

    /// Last slot of the range.
    pub fn end(&self) -> (end: u16)
        ensures
            end == self@.end,
    {
        self.end
    }

    /// Endpoint of the master that serves the range.
    pub fn master(&self) -> (master: &str)
        ensures
            master@ == self@.master,
    {
        self.master.as_str()
    }

    /// Endpoints of the replicas of the range. They are kept for reference
    /// and never routed to.
    pub fn replicas(&self) -> (replicas: &Vec<String>)
        ensures
            names_view(replicas@) == self@.replicas,
    {
        &self.replicas
    }
}

/// The views of a sequence of ranges, element by element.
pub open spec fn slot_views(slots: Seq<Slot>) -> Seq<SlotView> {
    Seq::new(slots.len(), |i: int| slots[i]@)
}

/// Number of leading ranges of `slots` that start below `start`: the place
/// where a range starting at `start` goes so that it precedes every range
/// that starts at or after it.
pub open spec fn insertion_point(slots: Seq<SlotView>, start: u16) -> int
    decreases slots.len(),
{
    if slots.len() == 0 || slots.first().start >= start {
        0
    } else {
        1 + insertion_point(slots.drop_first(), start)
    }
}

/// The ranges ordered by their first slot; ranges with the same first slot
/// keep the order they came in.
pub open spec fn sort_by_start(slots: Seq<SlotView>) -> Seq<SlotView>
    decreases slots.len(),
{
    if slots.len() == 0 {
        slots
    } else {
        let rest = sort_by_start(slots.drop_first());
        rest.insert(insertion_point(rest, slots.first().start), slots.first())
    }
}

/// Whether the first slots never decrease along `slots`.
pub open spec fn ordered_by_start(slots: Seq<SlotView>) -> bool {
    forall|i: int, j: int| 0 <= i <= j < slots.len() ==> slots[i].start <= slots[j].start
}

/// The insertion point lies within the sequence; everything before it
/// starts below `start`, and the range at it, if any, does not.
pub proof fn lemma_insertion_point(slots: Seq<SlotView>, start: u16)
    ensures
        0 <= insertion_point(slots, start) <= slots.len(),
        forall|i: int| 0 <= i < insertion_point(slots, start) ==> slots[i].start < start,
        insertion_point(slots, start) < slots.len() ==> slots[insertion_point(
            slots,
            start,
        )].start >= start,
    decreases slots.len(),
{
    if !(slots.len() == 0 || slots.first().start >= start) {
        let rest = slots.drop_first();
        lemma_insertion_point(rest, start);
        assert forall|i: int| 0 <= i < insertion_point(slots, start) implies slots[i].start
            < start by {
            if i > 0 {
                assert(slots[i] == rest[i - 1]);
            }
        }
    }
}

/// Sorting keeps the length, orders by first slot, and neither drops nor
/// invents a range.
pub proof fn lemma_sort_by_start(slots: Seq<SlotView>)
    ensures
        sort_by_start(slots).len() == slots.len(),
        ordered_by_start(sort_by_start(slots)),
        forall|i: int| 0 <= i < slots.len() ==> sort_by_start(slots).contains(#[trigger] slots[i]),
        forall|i: int|
            0 <= i < slots.len() ==> slots.contains(#[trigger] sort_by_start(slots)[i]),
    decreases slots.len(),
{
    if slots.len() > 0 {
        let first = slots.first();
        let rest = sort_by_start(slots.drop_first());
        lemma_sort_by_start(slots.drop_first());
        lemma_insertion_point(rest, first.start);
        let p = insertion_point(rest, first.start);
        let sorted = rest.insert(p, first);
        assert forall|i: int| 0 <= i < slots.len() implies sorted.contains(
            #[trigger] slots[i],
        ) by {
            if i == 0 {
                assert(sorted[p] == first);
            } else {
                assert(slots[i] == slots.drop_first()[i - 1]);
                let q = choose|q: int| 0 <= q < rest.len() && rest[q] == slots[i];
                if q < p {
                    assert(sorted[q] == rest[q]);
                } else {
                    assert(sorted[q + 1] == rest[q]);
                }
            }
        }
    }
}

/// Sorting rearranges: the ordered list holds each range as often as the
/// list that came in.
pub proof fn lemma_sort_rearranges(slots: Seq<SlotView>)
    ensures
        sort_by_start(slots).to_multiset() == slots.to_multiset(),
    decreases slots.len(),
{
    if slots.len() > 0 {
        let first = slots.first();
        let tail = slots.drop_first();
        let rest = sort_by_start(tail);
        lemma_sort_rearranges(tail);
        lemma_insertion_point(rest, first.start);
        to_multiset_insert(rest, insertion_point(rest, first.start), first);
        to_multiset_insert(tail, 0, first);
        assert(slots =~= tail.insert(0, first));
    }
}

/// The ranges of the list that start at `start`, in order.
pub open spec fn starting_at(slots: Seq<SlotView>, start: u16) -> Seq<SlotView>
    decreases slots.len(),
{
    if slots.len() == 0 {
        slots
    } else if slots.first().start == start {
        seq![slots.first()] + starting_at(slots.drop_first(), start)
    } else {
        starting_at(slots.drop_first(), start)
    }
}

/// The ranges that start at `start` in two lists put end to end are those
/// of the first list followed by those of the second.
proof fn lemma_starting_at_concat(a: Seq<SlotView>, b: Seq<SlotView>, start: u16)
    ensures
        starting_at(a + b, start) == starting_at(a, start) + starting_at(b, start),
    decreases a.len(),
{
    if a.len() > 0 {
        lemma_starting_at_concat(a.drop_first(), b, start);
        assert((a + b).drop_first() =~= a.drop_first() + b);
        if a.first().start == start {
            assert(seq![a.first()] + (starting_at(a.drop_first(), start) + starting_at(b, start))
                =~= (seq![a.first()] + starting_at(a.drop_first(), start)) + starting_at(
                b,
                start,
            ));
        }
    }
}

/// A list of which no range starts at `start` holds none that does.
proof fn lemma_starting_at_none(slots: Seq<SlotView>, start: u16)
    requires
        forall|i: int| 0 <= i < slots.len() ==> slots[i].start != start,
    ensures
        starting_at(slots, start) == Seq::<SlotView>::empty(),
    decreases slots.len(),
{
    if slots.len() > 0 {
        lemma_starting_at_none(slots.drop_first(), start);
    }
}

/// Sorting is stable: the ranges that start at the same slot stand in the
/// ordered list as they stood in the list that came in.
pub proof fn lemma_sort_is_stable(slots: Seq<SlotView>, start: u16)
    ensures
        starting_at(sort_by_start(slots), start) == starting_at(slots, start),
    decreases slots.len(),
{
    if slots.len() > 0 {
        let first = slots.first();
        let tail = slots.drop_first();
        let rest = sort_by_start(tail);
        lemma_sort_is_stable(tail, start);
        lemma_insertion_point(rest, first.start);
        let p = insertion_point(rest, first.start);
        let before = rest.take(p);
        let after = rest.skip(p);
        assert(rest =~= before + after);
        assert(rest.insert(p, first) =~= before + (seq![first] + after));
        lemma_starting_at_concat(before, after, start);
        lemma_starting_at_concat(before, seq![first] + after, start);
        assert((seq![first] + after).drop_first() =~= after);
        if first.start == start {
            lemma_starting_at_none(before, start);
            assert(Seq::<SlotView>::empty() + starting_at(after, start) =~= starting_at(
                after,
                start,
            ));
            assert(Seq::<SlotView>::empty() + (seq![first] + starting_at(after, start))
                =~= seq![first] + starting_at(after, start));
        }
    }
}

/// Finds the insertion point for a range that starts at `start`.
fn find_insertion_point(sorted: &Vec<Slot>, start: u16) -> (at: usize)
    ensures
        at == insertion_point(slot_views(sorted@), start),
        at <= sorted@.len(),
{
    let mut i: usize = 0;
    proof {
        assert(slot_views(sorted@).skip(0) =~= slot_views(sorted@));
    }
    while i < sorted.len() && sorted[i].start < start
        invariant
            i <= sorted@.len(),
            insertion_point(slot_views(sorted@), start) == i + insertion_point(
                slot_views(sorted@).skip(i as int),
                start,
            ),
        decreases sorted@.len() - i,
    {
        proof {
            let tail = slot_views(sorted@).skip(i as int);
            assert(tail.drop_first() =~= slot_views(sorted@).skip(i + 1));
        }
        i = i + 1;
    }
    i
}

/// Orders the ranges by their first slot, keeping ranges with the same
/// first slot in the order they came in.
pub fn sort_slots(slots: Vec<Slot>) -> (sorted: Vec<Slot>)
    ensures
        slot_views(sorted@) == sort_by_start(slot_views(slots@)),
{
    let ghost all = slot_views(slots@);
    let mut pending = slots;
    let mut sorted: Vec<Slot> = Vec::new();
    loop
        invariant
            pending@.len() <= all.len(),
            slot_views(pending@) == all.take(pending@.len() as int),
            slot_views(sorted@) == sort_by_start(all.skip(pending@.len() as int)),
        ensures
            slot_views(sorted@) == sort_by_start(all),
        decreases pending@.len(),
    {
        let ghost before = pending@;
        match pending.pop() {
            None => {
                proof {
                    assert(all.skip(0) =~= all);
                }
                break ;
            },
            Some(slot) => {
                let at = find_insertion_point(&sorted, slot.start);
                proof {
                    let k = before.len() - 1;
                    assert(slot@ == slot_views(before)[k]);
                    assert(all.skip(k).drop_first() =~= all.skip(k + 1));
                }
                sorted.insert(at, slot);
            },
        }
    }
    sorted
}

/// Number of the last slot.
pub const LAST_SLOT: u16 = 16383;

/// Why a list of announced ranges does not make a slot map.
#[derive(Debug, Clone, Copy, PartialEq, Eq, Structural)]
pub enum SlotMapError {
    /// A range does not start where the one before it ended: the ranges
    /// overlap or leave a gap. `expected` is the slot at which the range
    /// `start..=end` had to start.
    Misaligned { expected: u32, start: u16, end: u16 },
    /// The ranges end before the last slot: the slots from `next` on have
    /// no owner.
    Incomplete { next: u32 },
}

/// The slot at which range `i` of an ordered list has to start: slot 0 for
/// the first range, and the slot after the end of the preceding range for
/// the others. With `i` the length of the list, the slot after the end of
/// the whole list.
pub open spec fn expected_start(sorted: Seq<SlotView>, i: int) -> int {
    if i <= 0 {
        0
    } else {
        sorted[i - 1].end + 1
    }
}

/// Index of the first range at or after `from` that does not start where
/// it has to, or the length of the list when every range does.
pub open spec fn first_misaligned(sorted: Seq<SlotView>, from: int) -> int
    decreases sorted.len() - from,
{
    if from >= sorted.len() {
        sorted.len() as int
    } else if sorted[from].start != expected_start(sorted, from) {
        from
    } else {
        first_misaligned(sorted, from + 1)
    }
}

/// The mapping from last slot to master that the ranges give, taken in
/// order: a later range replaces an earlier one with the same last slot.
pub open spec fn owners_by_end(sorted: Seq<SlotView>) -> Map<u16, Seq<char>>
    decreases sorted.len(),
{
    if sorted.len() == 0 {
        Map::empty()
    } else {
        owners_by_end(sorted.drop_last()).insert(sorted.last().end, sorted.last().master)
    }
}

/// What a list of announced ranges amounts to. The ranges are ordered by
/// first slot; each must start where the one before it ended, the first at
/// slot 0; the last must end at the last slot. The map then takes each
/// range's last slot to its master.
pub open spec fn slot_map_of(slots: Seq<SlotView>) -> Result<Map<u16, Seq<char>>, SlotMapError> {
    let sorted = sort_by_start(slots);
    let bad = first_misaligned(sorted, 0);
    if bad < sorted.len() {
        Err(
            SlotMapError::Misaligned {
                expected: expected_start(sorted, bad) as u32,
                start: sorted[bad].start,
                end: sorted[bad].end,
            },
        )
    } else if expected_start(sorted, sorted.len() as int) != LAST_SLOT + 1 {
        Err(SlotMapError::Incomplete { next: expected_start(sorted, sorted.len() as int) as u32 })
    } else {
        Ok(owners_by_end(sorted))
    }
}

/// Whether some range of the list ends at slot `key`.
pub open spec fn ends_at(sorted: Seq<SlotView>, key: u16) -> bool {
    exists|i: int| 0 <= i < sorted.len() && #[trigger] sorted[i].end == key
}

/// Whether `key` is the least key of `map` that is not below `slot`.
pub open spec fn is_owner_key(map: Map<u16, Seq<char>>, slot: u16, key: u16) -> bool {
    &&& map.dom().contains(key)
    &&& slot <= key
    &&& forall|other: u16| map.dom().contains(other) && slot <= other ==> key <= other
}

/// The endpoint that owns `slot` according to `map`: the value at the
/// least key that is not below `slot`, if there is such a key.
pub open spec fn owner_of(map: Map<u16, Seq<char>>, slot: u16) -> Option<Seq<char>> {
    if exists|key: u16| is_owner_key(map, slot, key) {
        Some(map[choose|key: u16| is_owner_key(map, slot, key)])
    } else {
        None
    }
}

/// The masters that `map` holds at the keys from `from` on, by increasing
/// key. A master that serves several ranges occurs once for each.
pub open spec fn masters_from(map: Map<u16, Seq<char>>, from: int) -> Seq<Seq<char>>
    decreases 65536 - from,
{
    if from > 65535 {
        Seq::empty()
    } else if from >= 0 && map.dom().contains(from as u16) {
        seq![map[from as u16]] + masters_from(map, from + 1)
    } else {
        masters_from(map, from + 1)
    }
}

/// The masters of all ranges of `map`, by increasing last slot.
pub open spec fn masters_of(map: Map<u16, Seq<char>>) -> Seq<Seq<char>> {
    masters_from(map, 0)
}

/// One entry of a slot map.
struct SlotEntry {
    end: u16,
    master: String,
}

/// Ordered mapping from the last slot of a range to the endpoint of the
/// master that serves it. The owner of a slot is found at the first entry
/// whose last slot is not below it.
pub struct SlotMap {
    entries: Vec<SlotEntry>,
}

/// Whether the last slots of `entries` strictly increase.
spec fn strictly_increasing(entries: Seq<SlotEntry>) -> bool {
    forall|i: int, j: int| 0 <= i < j < entries.len() ==> entries[i].end < entries[j].end
}

/// The mapping that `entries` stand for.
spec fn entries_map(entries: Seq<SlotEntry>) -> Map<u16, Seq<char>> {
    Map::new(
        |key: u16| exists|i: int| 0 <= i < entries.len() && entries[i].end == key,
        |key: u16| entries[choose|i: int| 0 <= i < entries.len() && entries[i].end == key].master@,
    )
}

/// The masters of the entries from position `k` on.
spec fn entry_masters(entries: Seq<SlotEntry>, k: int) -> Seq<Seq<char>>
    decreases entries.len() - k,
{
    if k >= entries.len() || k < 0 {
        Seq::empty()
    } else {
        seq![entries[k].master@] + entry_masters(entries, k + 1)
    }
}

/// Walking the keys from `from` on meets the entries from position `k` on,
/// where `k` is the first entry whose last slot is not below `from`.
proof fn lemma_masters_from(entries: Seq<SlotEntry>, from: int, k: int)
    requires
        strictly_increasing(entries),
        0 <= from,
        0 <= k <= entries.len(),
        forall|i: int| 0 <= i < k ==> entries[i].end < from,
        forall|i: int| k <= i < entries.len() ==> from <= entries[i].end,
    ensures
        masters_from(entries_map(entries), from) == entry_masters(entries, k),
    decreases 65536 - from,
{
    let map = entries_map(entries);
    if from <= 65535 {
        if map.dom().contains(from as u16) {
            let i = choose|i: int| 0 <= i < entries.len() && entries[i].end == from as u16;
            assert(i == k) by {
                if i > k {
                    assert(entries[k].end < entries[i].end);
                }
            }
            lemma_entries_map_at(entries, k);
            lemma_masters_from(entries, from + 1, k + 1);
        } else {
            lemma_masters_from(entries, from + 1, k);
        }
    }
}

/// Entry `i` of a strictly increasing list is what the map holds at its key.
proof fn lemma_entries_map_at(entries: Seq<SlotEntry>, i: int)
    requires
        strictly_increasing(entries),
        0 <= i < entries.len(),
    ensures
        entries_map(entries).dom().contains(entries[i].end),
        entries_map(entries)[entries[i].end] == entries[i].master@,
{
    let j = choose|j: int| 0 <= j < entries.len() && entries[j].end == entries[i].end;
    assert(j == i);
}

impl View for SlotMap {
    type V = Map<u16, Seq<char>>;

    closed spec fn view(&self) -> Map<u16, Seq<char>> {
        entries_map(self.entries@)
    }
}

impl SlotMap {
    #[verifier::type_invariant]
    spec fn ordered(self) -> bool {
        strictly_increasing(self.entries@)
    }

    /// Makes a map without entries: no slot has an owner.
    pub fn new() -> (map: SlotMap)
        ensures
            map@ == Map::<u16, Seq<char>>::empty(),
    {
        let map = SlotMap { entries: Vec::new() };
        map
    }

    /// Number of entries.
    pub fn len(&self) -> (len: usize)
        ensures
            len == self@.dom().len(),
            self@.dom().finite(),
    {
        proof {
            use_type_invariant(self);
            lemma_entries_dom(self.entries@);
        }
        self.entries.len()
    }

    /// Index of the first entry whose last slot is not below `slot`.
    fn lower_bound(&self, slot: u16) -> (at: usize)
        ensures
            at <= self.entries@.len(),
            forall|i: int| 0 <= i < at ==> self.entries@[i].end < slot,
            forall|i: int| at <= i < self.entries@.len() ==> slot <= self.entries@[i].end,
    {
        proof {
            use_type_invariant(self);
        }
        let mut low: usize = 0;
        let mut high: usize = self.entries.len();
        while low < high
            invariant
                low <= high <= self.entries@.len(),
                strictly_increasing(self.entries@),
                forall|i: int| 0 <= i < low ==> self.entries@[i].end < slot,
                forall|i: int| high <= i < self.entries@.len() ==> slot <= self.entries@[i].end,
            decreases high - low,
        {
            let mid = low + (high - low) / 2;
            if self.entries[mid].end < slot {
                low = mid + 1;
            } else {
                high = mid;
            }
        }
        low
    }

    /// Sets the master of the range that ends at `end`, replacing what the
    /// map held for that last slot.
    pub fn insert(&mut self, end: u16, master: String)
        ensures
            final(self)@ == old(self)@.insert(end, master@),
    {
        proof {
            use_type_invariant(&*self);
        }
        let at = self.lower_bound(end);
        let ghost before = self.entries@;
        let entry = SlotEntry { end, master };
        let mut taken = SlotMap { entries: Vec::new() };
        core::mem::swap(self, &mut taken);
        let mut entries = taken.entries;
        if at < entries.len() && entries[at].end == end {
            entries.set(at, entry);
            proof {
                let after = entries@;
                assert forall|key: u16| #[trigger]
                    entries_map(after).dom().contains(key) == entries_map(before).insert(
                        end,
                        master@,
                    ).dom().contains(key) by {
                    if entries_map(before).dom().contains(key) {
                        let i = choose|i: int| 0 <= i < before.len() && before[i].end == key;
                        assert(after[i].end == key);
                    }
                }
                assert forall|key: u16| #[trigger]
                    entries_map(after).dom().contains(key) implies entries_map(after)[key]
                    == entries_map(before).insert(end, master@)[key] by {
                    let i = choose|i: int| 0 <= i < after.len() && after[i].end == key;
                    lemma_entries_map_at(after, i);
                    if i != at {
                        lemma_entries_map_at(before, i);
                    }
                }
            }
        } else {
            entries.insert(at, entry);
            proof {
                let after = entries@;
                assert forall|key: u16| #[trigger]
                    entries_map(after).dom().contains(key) == entries_map(before).insert(
                        end,
                        master@,
                    ).dom().contains(key) by {
                    if entries_map(before).dom().contains(key) {
                        let i = choose|i: int| 0 <= i < before.len() && before[i].end == key;
                        if i < at {
                            assert(after[i].end == key);
                        } else {
                            assert(after[i + 1].end == key);
                        }
                    }
                    if key == end {
                        assert(after[at as int].end == key);
                    }
                }
                assert forall|key: u16| #[trigger]
                    entries_map(after).dom().contains(key) implies entries_map(after)[key]
                    == entries_map(before).insert(end, master@)[key] by {
                    let i = choose|i: int| 0 <= i < after.len() && after[i].end == key;
                    lemma_entries_map_at(after, i);
                    if i < at {
                        lemma_entries_map_at(before, i);
                    } else if i > at {
                        lemma_entries_map_at(before, i - 1);
                    }
                }
            }
        }
        *self = SlotMap { entries };
    }

    /// Lists the masters of all ranges, by increasing last slot.
    pub fn masters(&self) -> (masters: Vec<String>)
        ensures
            names_view(masters@) == masters_of(self@),
    {
        proof {
            use_type_invariant(self);
        }
        let mut masters: Vec<String> = Vec::new();
        let mut k: usize = 0;
        while k < self.entries.len()
            invariant
                k <= self.entries@.len(),
                names_view(masters@) + entry_masters(self.entries@, k as int) == entry_masters(
                    self.entries@,
                    0,
                ),
            decreases self.entries@.len() - k,
        {
            let ghost before = names_view(masters@);
            let name = self.entries[k].master.clone();
            masters.push(name);
            proof {
                assert(names_view(masters@) =~= before.push(name@));
                assert(before.push(name@) + entry_masters(self.entries@, k + 1) =~= before + (
                seq![name@] + entry_masters(self.entries@, k + 1)));
            }
            k = k + 1;
        }
        proof {
            assert(names_view(masters@) + Seq::<Seq<char>>::empty() =~= names_view(masters@));
            lemma_masters_from(self.entries@, 0, 0);
        }
        masters
    }

    /// Looks up the endpoint that owns `slot`: the master at the first
    /// entry whose last slot is not below `slot`. `None` when the map has no
    /// such entry.
    pub fn owner(&self, slot: u16) -> (owner: Option<&String>)
        ensures
            match owner {
                Some(name) => owner_of(self@, slot) == Some(name@),
                None => owner_of(self@, slot) is None,
            },
    {
        proof {
            use_type_invariant(self);
        }
        let at = self.lower_bound(slot);
        if at < self.entries.len() {
            proof {
                let entries = self.entries@;
                let key = entries[at as int].end;
                lemma_entries_map_at(entries, at as int);
                lemma_owner_key_unique(self@, slot, key);
            }
            Some(&self.entries[at].master)
        } else {
            None
        }
    }
}

/// The keys of the map that a strictly increasing list stands for are as
/// many as its entries.
proof fn lemma_entries_dom(entries: Seq<SlotEntry>)
    requires
        strictly_increasing(entries),
    ensures
        entries_map(entries).dom().finite(),
        entries_map(entries).dom().len() == entries.len(),
    decreases entries.len(),
{
    if entries.len() == 0 {
        assert(entries_map(entries).dom() =~= Set::<u16>::empty());
    } else {
        let init = entries.drop_last();
        let last = entries.last();
        lemma_entries_dom(init);
        assert forall|key: u16| #[trigger]
            entries_map(entries).dom().contains(key) == entries_map(init).dom().insert(
                last.end,
            ).contains(key) by {
            if entries_map(entries).dom().contains(key) {
                let i = choose|i: int| 0 <= i < entries.len() && entries[i].end == key;
                if i < init.len() {
                    assert(init[i].end == key);
                }
            }
        }
        assert(entries_map(entries).dom() =~= entries_map(init).dom().insert(last.end));
    }
}

/// At most one key is the owner key of a slot.
pub proof fn lemma_owner_key_unique(map: Map<u16, Seq<char>>, slot: u16, key: u16)
    requires
        is_owner_key(map, slot, key),
    ensures
        owner_of(map, slot) == Some(map[key]),
{
}

/// Builds the slot map from the ranges that a node announced. The ranges
/// are ordered by first slot and must tile the slots from 0 to the last
/// one: each range has to start right after the one before it, and the
/// last has to end at the last slot.
pub fn build_slot_map(slots_data: Vec<Slot>) -> (built: Result<SlotMap, SlotMapError>)
    ensures
        match built {
            Ok(map) => slot_map_of(slot_views(slots_data@)) == Ok::<
                Map<u16, Seq<char>>,
                SlotMapError,
            >(map@),
            Err(error) => slot_map_of(slot_views(slots_data@)) == Err::<
                Map<u16, Seq<char>>,
                SlotMapError,
            >(error),
        },
{
    let sorted = sort_slots(slots_data);
    let ghost views = slot_views(sorted@);
    let mut expected: u32 = 0;
    let mut i: usize = 0;
    while i < sorted.len()
        invariant
            i <= sorted@.len(),
            views == slot_views(sorted@),
            views == sort_by_start(slot_views(slots_data@)),
            expected == expected_start(views, i as int),
            first_misaligned(views, 0) == first_misaligned(views, i as int),
        decreases sorted@.len() - i,
    {
        let slot = &sorted[i];
        if slot.start as u32 != expected {
            return Err(
                SlotMapError::Misaligned { expected, start: slot.start, end: slot.end },
            );
        }
        expected = slot.end as u32 + 1;
        i = i + 1;
    }
    if expected != LAST_SLOT as u32 + 1 {
        return Err(SlotMapError::Incomplete { next: expected });
    }
    let mut map = SlotMap::new();
    let mut k: usize = 0;
    while k < sorted.len()
        invariant
            k <= sorted@.len(),
            views == slot_views(sorted@),
            map@ == owners_by_end(views.take(k as int)),
        decreases sorted@.len() - k,
    {
        let slot = &sorted[k];
        proof {
            assert(views.take(k + 1).drop_last() =~= views.take(k as int));
        }
        map.insert(slot.end, slot.master.clone());
        k = k + 1;
    }
    proof {
        assert(views.take(sorted@.len() as int) =~= views);
    }
    Ok(map)
}

/// Where some key of `map` is not below `slot`, one of them is the least.
pub proof fn lemma_owner_key_exists(map: Map<u16, Seq<char>>, slot: u16, witness: u16)
    requires
        map.dom().contains(witness),
        slot <= witness,
    ensures
        exists|key: u16| is_owner_key(map, slot, key),
        owner_of(map, slot) is Some,
    decreases witness - slot,
{
    if exists|other: u16| map.dom().contains(other) && slot <= other < witness {
        let other = choose|other: u16| map.dom().contains(other) && slot <= other < witness;
        lemma_owner_key_exists(map, slot, other);
    } else {
        assert(is_owner_key(map, slot, witness));
    }
}

/// The map of a list of ranges holds the last slot of each of them, and
/// nothing else.
pub proof fn lemma_owners_by_end_keys(sorted: Seq<SlotView>)
    ensures
        forall|i: int| 0 <= i < sorted.len() ==> owners_by_end(sorted).dom().contains(
            #[trigger] sorted[i].end,
        ),
        forall|key: u16| #[trigger]
            owners_by_end(sorted).dom().contains(key) ==> ends_at(sorted, key),
    decreases sorted.len(),
{
    if sorted.len() > 0 {
        let init = sorted.drop_last();
        lemma_owners_by_end_keys(init);
        assert forall|i: int| 0 <= i < sorted.len() implies owners_by_end(
            sorted,
        ).dom().contains(#[trigger] sorted[i].end) by {
            if i < init.len() {
                assert(init[i] == sorted[i]);
            }
        }
        assert forall|key: u16| #[trigger]
            owners_by_end(sorted).dom().contains(key) implies ends_at(sorted, key) by {
            if key != sorted.last().end {
                assert(owners_by_end(init).dom().contains(key));
            }
        }
    }
}

/// A slot map that was built gives every slot an owner: the slots from 0
/// to the last one are covered without a gap.
pub proof fn lemma_slot_map_total(slots: Seq<SlotView>, slot: u16)
    requires
        slot_map_of(slots) is Ok,
        slot <= LAST_SLOT,
    ensures
        owner_of(slot_map_of(slots)->Ok_0, slot) is Some,
{
    let sorted = sort_by_start(slots);
    lemma_owners_by_end_keys(sorted);
    lemma_owner_key_exists(owners_by_end(sorted), slot, LAST_SLOT);
}

/// Whether `slot` lies within `range`.
pub open spec fn holds_slot(range: SlotView, slot: u16) -> bool {
    range.start <= slot <= range.end
}

/// Whether two ranges have no slot in common.
pub open spec fn ranges_disjoint(a: SlotView, b: SlotView) -> bool {
    forall|slot: u16| !(#[trigger] holds_slot(a, slot) && #[trigger] holds_slot(b, slot))
}

/// Whether no two ranges of the list have a slot in common.
pub open spec fn pairwise_disjoint(slots: Seq<SlotView>) -> bool {
    forall|i: int, j: int| 0 <= i < j < slots.len() ==> ranges_disjoint(slots[i], slots[j])
}

/// Where no range from `from` on is misaligned, each of them starts where
/// it has to.
pub proof fn lemma_aligned(sorted: Seq<SlotView>, from: int)
    requires
        0 <= from,
        first_misaligned(sorted, from) >= sorted.len(),
    ensures
        forall|k: int| from <= k < sorted.len() ==> sorted[k].start == expected_start(sorted, k),
    decreases sorted.len() - from,
{
    if from < sorted.len() {
        lemma_aligned(sorted, from + 1);
    }
}

/// In an aligned list ordered by first slot, a later range starts after
/// the end of an earlier one.
proof fn lemma_later_starts_after(sorted: Seq<SlotView>, p: int, q: int)
    requires
        ordered_by_start(sorted),
        first_misaligned(sorted, 0) >= sorted.len(),
        0 <= p < q < sorted.len(),
    ensures
        sorted[p].end < sorted[q].start,
{
    lemma_aligned(sorted, 0);
    assert(sorted[p + 1].start == expected_start(sorted, p + 1));
}

/// Where the ordered list has no two ranges in common, neither has the
/// list as it came.
proof fn lemma_disjoint_before_sorting(slots: Seq<SlotView>)
    requires
        pairwise_disjoint(sort_by_start(slots)),
    ensures
        pairwise_disjoint(slots),
    decreases slots.len(),
{
    if slots.len() > 0 {
        let first = slots.first();
        let tail = slots.drop_first();
        let rest = sort_by_start(tail);
        lemma_insertion_point(rest, first.start);
        lemma_sort_by_start(tail);
        let p = insertion_point(rest, first.start);
        let sorted = rest.insert(p, first);
        assert forall|a: int, b: int| 0 <= a < b < rest.len() implies ranges_disjoint(
            rest[a],
            rest[b],
        ) by {
            let a2 = if a < p { a } else { a + 1 };
            let b2 = if b < p { b } else { b + 1 };
            assert(sorted[a2] == rest[a] && sorted[b2] == rest[b]);
        }
        lemma_disjoint_before_sorting(tail);
        assert forall|a: int, b: int| 0 <= a < b < slots.len() implies ranges_disjoint(
            slots[a],
            slots[b],
        ) by {
            if a == 0 {
                let q = choose|q: int| 0 <= q < rest.len() && rest[q] == tail[b - 1];
                if q < p {
                    assert(ranges_disjoint(sorted[q], sorted[p]));
                } else {
                    assert(sorted[q + 1] == rest[q] && sorted[p] == first);
                }
            } else {
                assert(slots[a] == tail[a - 1] && slots[b] == tail[b - 1]);
            }
        }
    }
}

/// Ranges that overlap make no slot map: where two of the announced
/// ranges have a slot in common, the construction fails.
pub proof fn lemma_overlap_fails(slots: Seq<SlotView>, i: int, j: int, slot: u16)
    requires
        0 <= i < j < slots.len(),
        holds_slot(slots[i], slot),
        holds_slot(slots[j], slot),
    ensures
        slot_map_of(slots) is Err,
{
    let sorted = sort_by_start(slots);
    if slot_map_of(slots) is Ok {
        lemma_sort_by_start(slots);
        assert forall|p: int, q: int| 0 <= p < q < sorted.len() implies ranges_disjoint(
            sorted[p],
            sorted[q],
        ) by {
            lemma_later_starts_after(sorted, p, q);
        }
        lemma_disjoint_before_sorting(slots);
        assert(ranges_disjoint(slots[i], slots[j]));
    }
}

/// In a list whose last slots strictly increase, no range replaces
/// another: the map takes each last slot to the master of its range.
proof fn lemma_owners_by_end_at(sorted: Seq<SlotView>, q: int)
    requires
        forall|a: int, b: int| 0 <= a < b < sorted.len() ==> sorted[a].end < sorted[b].end,
        0 <= q < sorted.len(),
    ensures
        owners_by_end(sorted).dom().contains(sorted[q].end),
        owners_by_end(sorted)[sorted[q].end] == sorted[q].master,
    decreases sorted.len(),
{
    let init = sorted.drop_last();
    if q < sorted.len() - 1 {
        lemma_owners_by_end_at(init, q);
    }
}

/// Where every announced range holds at least one slot and the slot map
/// was built, each slot of a range is owned by the master of that range.
pub proof fn lemma_owner_is_master(slots: Seq<SlotView>, i: int, slot: u16)
    requires
        slot_map_of(slots) is Ok,
        forall|k: int| 0 <= k < slots.len() ==> (#[trigger] slots[k]).start <= slots[k].end,
        0 <= i < slots.len(),
        holds_slot(slots[i], slot),
    ensures
        owner_of(slot_map_of(slots)->Ok_0, slot) == Some(slots[i].master),
{
    let sorted = sort_by_start(slots);
    let map = owners_by_end(sorted);
    lemma_sort_by_start(slots);
    assert forall|a: int, b: int| 0 <= a < b < sorted.len() implies sorted[a].end
        < sorted[b].end by {
        lemma_later_starts_after(sorted, a, b);
    }
    let q = choose|q: int| 0 <= q < sorted.len() && sorted[q] == slots[i];
    lemma_owners_by_end_at(sorted, q);
    lemma_owners_by_end_keys(sorted);
    let key = sorted[q].end;
    assert forall|other: u16| map.dom().contains(other) && slot <= other implies key
        <= other by {
        let k = choose|k: int| 0 <= k < sorted.len() && #[trigger] sorted[k].end == other;
        if k < q {
            lemma_later_starts_after(sorted, k, q);
        }
    }
    lemma_owner_key_unique(map, slot, key);
}


} // verus!
