//! Cells, references to cells, and the collector that assigns serial indices.
//!
//! Every record of every table lives in a [`CellStore`]. A [`TableCell`] is a
//! handle to one record: it carries the slot of the record in its store.
//! Handles are cheap to copy and copying shares the record. Every cell has
//! an identifier that no other cell has, of whatever store: the identifiers
//! come from one counter, the [`CellIds`], in the order in which the cells
//! are made, and the store keeps the identifier of each of its cells. A
//! table is an ordered list of handles; a reference is either an index into
//! such a list (unresolved) or a handle (resolved).
use vstd::prelude::*;
use std::collections::HashMap;
use std::ops::Range;

use crate::INVALID_INDEX;

verus! {

broadcast use vstd::std_specs::hash::group_hash_axioms;

/// The counter that gives every cell its identifier. All stores draw from
/// one counter, so that a cell that is made later has the greater
/// identifier, whatever it holds, and no two cells share one.
pub struct CellIds {
    pub next: u64,
}

impl CellIds {
    /// A counter that has given out no identifier yet.
    pub fn new() -> (ids: Self)
        ensures
            ids.next == 0,
    {
        CellIds { next: 0 }
    }

    /// Whether the counter has `count` identifiers left to give.
    pub open spec fn room(&self, count: int) -> bool {
        self.next + count <= u64::MAX
    }

    /// Computes [`CellIds::room`].
    pub fn has_room(&self, count: usize) -> (b: bool)
        ensures
            b == self.room(count as int),
    {
        count as u64 <= u64::MAX - self.next
    }
}

/// The records of one type. A record never moves and is never removed, so its
/// slot names it for as long as the store lives. Beside each record the
/// store keeps the identifier of its cell, under the slot of the record.
pub struct CellStore<T> {
    pub cells: Vec<T>,
    pub ids: HashMap<u64, u64>,
}

impl<T> View for CellStore<T> {
    type V = Seq<T>;

    open spec fn view(&self) -> Seq<T> {
        self.cells@
    }
}

impl<T> CellStore<T> {
    /// Whether `cell` is a handle to a record of this store.
    pub open spec fn has(&self, cell: TableCell) -> bool {
        cell.slot < self@.len()
    }

    /// The record that `cell` stands for.
    pub open spec fn at(&self, cell: TableCell) -> T {
        self@[cell.slot as int]
    }

    /// Whether the store knows the identifier of `cell`.
    pub open spec fn names(&self, cell: TableCell) -> bool {
        self.ids@.contains_key(cell.slot)
    }

    /// The identifier of `cell`.
    pub open spec fn guid_of(&self, cell: TableCell) -> u64 {
        self.ids@[cell.slot]
    }

    /// Whether the cells of the store have the identifiers from `base` on,
    /// in the order of their slots.
    pub open spec fn numbered_from(&self, base: int) -> bool {
        forall|slot: u64|
            slot < self@.len() ==> #[trigger] self.ids@.contains_key(slot) && self.ids@[slot]
                == base + slot
    }

    pub fn new() -> (store: Self)
        ensures
            store@ == Seq::<T>::empty(),
            forall|cell: TableCell| !store.names(cell),
    {
        CellStore { cells: Vec::new(), ids: HashMap::new() }
    }

    /// The store of the records `records`, whose cells have yet to get
    /// their identifiers.
    pub fn unnamed(records: Vec<T>) -> (store: Self)
        ensures
            store@ == records@,
            forall|cell: TableCell| !store.names(cell),
    {
        CellStore { cells: records, ids: HashMap::new() }
    }

    /// Gives every cell of the store the next identifier of the counter, in
    /// the order of the slots. The records stay as they are.
    pub fn name_all(&mut self, ids: &mut CellIds)
        requires
            old(ids).room(old(self)@.len() as int),
        ensures
            final(self)@ == old(self)@,
            final(self).numbered_from(old(ids).next as int),
            final(ids).next == old(ids).next + old(self)@.len(),
    {
        let count: usize = self.cells.len();
        let base: u64 = ids.next;
        let mut slot: u64 = 0;
        while slot < count as u64
            invariant
                slot <= count,
                count == self.cells@.len(),
                self.cells@ == old(self).cells@,
                base + count <= u64::MAX,
                forall|other: u64|
                    other < slot ==> #[trigger] self.ids@.contains_key(other) && self.ids@[other]
                        == base + other,
            decreases count - slot,
        {
            self.ids.insert(slot, base + slot);
            slot = slot + 1;
        }
        ids.next = base + count as u64;
    }

    /// The store of the records `records`, each in a new cell: the cells
    /// get the next identifiers of the counter, in the order of the
    /// records.
    pub fn from_records(records: Vec<T>, ids: &mut CellIds) -> (store: Self)
        requires
            old(ids).room(records@.len() as int),
        ensures
            store@ == records@,
            store.numbered_from(old(ids).next as int),
            final(ids).next == old(ids).next + records@.len(),
    {
        let count: usize = records.len();
        let base: u64 = ids.next;
        let mut named: HashMap<u64, u64> = HashMap::new();
        let mut slot: u64 = 0;
        while slot < count as u64
            invariant
                slot <= count,
                base + count <= u64::MAX,
                forall|other: u64|
                    other < slot ==> #[trigger] named@.contains_key(other) && named@[other] == base
                        + other,
            decreases count - slot,
        {
            named.insert(slot, base + slot);
            slot = slot + 1;
        }
        ids.next = base + count as u64;
        CellStore { cells: records, ids: named }
    }

    pub fn len(&self) -> (n: usize)
        ensures
            n == self@.len(),
    {
        self.cells.len()
    }

    pub fn contains(&self, cell: &TableCell) -> (b: bool)
        ensures
            b == self.has(*cell),
    {
        cell.slot < self.cells.len() as u64
    }

    /// The record behind `cell`, or nothing where the handle does not belong
    /// to this store.
    pub fn lookup(&self, cell: &TableCell) -> (r: Option<&T>)
        ensures
            match r {
                Some(data) => self.has(*cell) && *data == self.at(*cell),
                None => !self.has(*cell),
            },
    {
        if cell.slot < self.cells.len() as u64 {
            Some(&self.cells[cell.slot as usize])
        } else {
            None
        }
    }
}

/// A handle to one record of the archive.
///
/// The handle names the slot of the record in its store. It does not say
/// which store it belongs to: the field or table that holds it does. The
/// identifier of the cell, which no cell of any store shares, is kept by the
/// store.
#[derive(Debug, Copy, Clone, PartialEq, Eq, Structural)]
pub struct TableCell {
    pub slot: u64,
}

impl TableCell {
    /// Puts `data` into a new cell of `store`. The cell gets the next
    /// identifier of the counter `ids`: one that is greater than that of
    /// every cell that was made with the counter before, in whatever store.
    /// The identifiers of the other cells of the store stay.
    pub fn new<T>(data: T, store: &mut CellStore<T>, ids: &mut CellIds) -> (cell: Self)
        requires
            old(ids).next < u64::MAX,
        ensures
            cell.slot == old(store)@.len(),
            final(store)@ == old(store)@.push(data),
            final(store).ids@ == old(store).ids@.insert(cell.slot, old(ids).next),
            final(store).names(cell),
            final(store).guid_of(cell) == old(ids).next,
            final(ids).next == old(ids).next + 1,
    {
        let slot: u64 = store.cells.len() as u64;
        store.cells.push(data);
        store.ids.insert(slot, ids.next);
        ids.next = ids.next + 1;
        TableCell { slot }
    }

    /// The handle to the given slot.
    pub fn from_slot(slot: u64) -> (cell: Self)
        ensures
            cell.slot == slot,
    {
        TableCell { slot }
    }

    /// The slot of the record in its store.
    pub fn slot(&self) -> (slot: u64)
        ensures
            slot == self.slot,
    {
        self.slot
    }

    /// The identifier of the cell, which `store` keeps. A copy of the handle
    /// has the same, and a write to the record does not change it.
    pub fn guid<T>(&self, store: &CellStore<T>) -> (guid: u64)
        requires
            store.names(*self),
        ensures
            guid == store.guid_of(*self),
    {
        let found = store.ids.get(&self.slot);
        *found.unwrap()
    }

    pub fn get<'a, T>(&self, store: &'a CellStore<T>) -> (data: &'a T)
        requires
            store.has(*self),
        ensures
            *data == store.at(*self),
    {
        let len: usize = store.cells.len();
        &store.cells[self.slot as usize]
    }

    pub fn get_mut<'a, T>(&self, store: &'a mut CellStore<T>) -> (data: &'a mut T)
        requires
            old(store).has(*self),
        ensures
            *data == old(store).at(*self),
            final(store)@ == old(store)@.update(self.slot as int, *final(data)),
            final(store).ids == old(store).ids,
    {
        let len: usize = store.cells.len();
        &mut store.cells[self.slot as usize]
    }
}

/// A potentially unresolved reference to one record.
#[derive(Debug, Copy, Clone, PartialEq, Eq, Structural)]
pub enum TableReference {
    /// A resolved reference: a cell of one of the archive's tables.
    Resolved(TableCell),
    /// An unresolved reference: an index into one of the archive's tables.
    Unresolved(usize),
}

impl TableReference {
    /// Whether [`TableReference::resolve_with_offset`] can resolve the
    /// reference against a table of `table_len` cells.
    pub open spec fn resolvable(self, table_len: nat, offset: int) -> bool {
        self matches TableReference::Unresolved(index) ==> index + offset < table_len
    }

    /// The reference after resolving it against `table`: an unresolved index
    /// becomes the cell at that index plus `offset`, a resolved reference
    /// stays as it is.
    pub open spec fn resolved_with(self, table: Seq<TableCell>, offset: int) -> Self {
        match self {
            TableReference::Unresolved(index) => TableReference::Resolved(table[index + offset]),
            TableReference::Resolved(cell) => TableReference::Resolved(cell),
        }
    }

    pub fn invalid() -> (r: Self)
        ensures
            r == TableReference::Unresolved(INVALID_INDEX),
    {
        TableReference::Unresolved(INVALID_INDEX)
    }

    /// Whether the reference can be resolved against a table of `table_len`
    /// cells, its index moved by `offset`.
    pub fn can_resolve(&self, table_len: usize, offset: usize) -> (b: bool)
        ensures
            b == self.resolvable(table_len as nat, offset as int),
    {
        match self {
            TableReference::Unresolved(index) => offset < table_len && *index < table_len - offset,
            TableReference::Resolved(_) => true,
        }
    }

    pub fn resolve(&mut self, table: &[TableCell])
        requires
            old(self).resolvable(table@.len(), 0),
        ensures
            *final(self) == old(self).resolved_with(table@, 0),
    {
        self.resolve_with_offset(table, 0)
    }

    pub fn resolve_with_offset(&mut self, table: &[TableCell], offset: usize)
        requires
            old(self).resolvable(table@.len(), offset as int),
        ensures
            *final(self) == old(self).resolved_with(table@, offset as int),
    {
        let len: usize = table.len();
        match *self {
            TableReference::Unresolved(index) => {
                *self = TableReference::Resolved(table[index + offset]);
            },
            TableReference::Resolved(_) => {},
        }
    }

    pub fn is_resolved(&self) -> (b: bool)
        ensures
            b == (*self is Resolved),
    {
        match self {
            TableReference::Resolved(_) => true,
            TableReference::Unresolved(_) => false,
        }
    }

    pub fn cell(&self) -> (cell: &TableCell)
        requires
            *self is Resolved,
        ensures
            *cell == self->Resolved_0,
    {
        match self {
            TableReference::Resolved(cell) => cell,
            TableReference::Unresolved(_) => vstd::pervasive::unreached(),
        }
    }
}

/// What a [`TableReferenceSet`] holds: its cells in order once it is
/// resolved, and before that whatever locates them.
pub enum ReferenceSetView<U> {
    Resolved(Seq<TableCell>),
    Unresolved(U),
}

/// A set of records referenced by a single item.
pub enum TableReferenceSet<U> {
    Resolved(Vec<TableCell>),
    Unresolved(U),
}

impl<U> View for TableReferenceSet<U> {
    type V = ReferenceSetView<U>;

    open spec fn view(&self) -> ReferenceSetView<U> {
        match *self {
            TableReferenceSet::Resolved(cells) => ReferenceSetView::Resolved(cells@),
            TableReferenceSet::Unresolved(at) => ReferenceSetView::Unresolved(at),
        }
    }
}

impl<U> ReferenceSetView<U> {
    /// The cells of a resolved set.
    pub open spec fn cells(self) -> Seq<TableCell> {
        self->Resolved_0
    }
}

impl<U> TableReferenceSet<U> {
    pub fn is_resolved(&self) -> (b: bool)
        ensures
            b == (self@ is Resolved),
    {
        match self {
            TableReferenceSet::Resolved(_) => true,
            TableReferenceSet::Unresolved(_) => false,
        }
    }

    pub fn len(&self) -> (n: usize)
        requires
            self@ is Resolved,
        ensures
            n == self@.cells().len(),
    {
        match self {
            TableReferenceSet::Resolved(set) => set.len(),
            TableReferenceSet::Unresolved(_) => vstd::pervasive::unreached(),
        }
    }

    pub fn is_empty(&self) -> (b: bool)
        requires
            self@ is Resolved,
        ensures
            b == (self@.cells().len() == 0),
    {
        match self {
            TableReferenceSet::Resolved(set) => set.len() == 0,
            TableReferenceSet::Unresolved(_) => vstd::pervasive::unreached(),
        }
    }

    pub fn push(&mut self, cell: TableCell)
        requires
            old(self)@ is Resolved,
        ensures
            final(self)@ == ReferenceSetView::<U>::Resolved(old(self)@.cells().push(cell)),
    {
        match self {
            TableReferenceSet::Resolved(set) => {
                set.push(cell);
            },
            TableReferenceSet::Unresolved(_) => {},
        }
    }

    pub fn insert(&mut self, index: usize, cell: TableCell)
        requires
            old(self)@ is Resolved,
            index <= old(self)@.cells().len(),
        ensures
            final(self)@ == ReferenceSetView::<U>::Resolved(
                old(self)@.cells().insert(index as int, cell),
            ),
    {
        match self {
            TableReferenceSet::Resolved(set) => {
                set.insert(index, cell);
            },
            TableReferenceSet::Unresolved(_) => {},
        }
    }

    pub fn clear(&mut self)
        requires
            old(self)@ is Resolved,
        ensures
            final(self)@ == ReferenceSetView::<U>::Resolved(Seq::empty()),
    {
        match self {
            TableReferenceSet::Resolved(set) => {
                set.clear();
            },
            TableReferenceSet::Unresolved(_) => {},
        }
    }

    /// The handles of the set, in order.
    pub fn iter(&self) -> (cells: Vec<TableCell>)
        requires
            self@ is Resolved,
        ensures
            cells@ == self@.cells(),
    {
        let source = self.cells();
        let mut cells: Vec<TableCell> = Vec::new();
        let mut i: usize = 0;
        while i < source.len()
            invariant
                i <= source@.len(),
                cells@ == source@.subrange(0, i as int),
            decreases source@.len() - i,
        {
            cells.push(source[i]);
            i = i + 1;
            assert(cells@ =~= source@.subrange(0, i as int));
        }
        assert(source@.subrange(0, i as int) =~= source@);
        cells
    }

    pub fn cells(&self) -> (cells: &[TableCell])
        requires
            self@ is Resolved,
        ensures
            cells@ == self@.cells(),
    {
        match self {
            TableReferenceSet::Resolved(set) => set.as_slice(),
            TableReferenceSet::Unresolved(_) => vstd::pervasive::unreached(),
        }
    }

    /// The handles of the set, to be changed in place.
    pub fn cells_mut(&mut self) -> (cells: &mut Vec<TableCell>)
        requires
            old(self)@ is Resolved,
        ensures
            cells@ == old(self)@.cells(),
            final(self)@ == ReferenceSetView::<U>::Resolved(final(cells)@),
    {
        match self {
            TableReferenceSet::Resolved(set) => set,
            TableReferenceSet::Unresolved(_) => vstd::pervasive::unreached(),
        }
    }

    pub fn replace(&mut self, set: Vec<TableCell>)
        ensures
            final(self)@ == ReferenceSetView::<U>::Resolved(set@),
    {
        *self = TableReferenceSet::Resolved(set);
    }

    pub fn get(&self, index: usize) -> (cell: TableCell)
        requires
            self@ is Resolved,
            index < self@.cells().len(),
        ensures
            cell == self@.cells()[index as int],
    {
        match self {
            TableReferenceSet::Resolved(set) => set[index],
            TableReferenceSet::Unresolved(_) => vstd::pervasive::unreached(),
        }
    }

    /// The handle at `index`, to be changed in place.
    pub fn get_mut(&mut self, index: usize) -> (cell: &mut TableCell)
        requires
            old(self)@ is Resolved,
            index < old(self)@.cells().len(),
        ensures
            *cell == old(self)@.cells()[index as int],
            final(self)@ == ReferenceSetView::<U>::Resolved(
                old(self)@.cells().update(index as int, *final(cell)),
            ),
    {
        match self {
            TableReferenceSet::Resolved(set) => &mut set[index],
            TableReferenceSet::Unresolved(_) => vstd::pervasive::unreached(),
        }
    }
}

/// The range of `count` indices from `start` on.
pub open spec fn span(start: usize, count: usize) -> Range<usize> {
    start..(if start + count <= usize::MAX {
        (start + count) as usize
    } else {
        usize::MAX
    })
}

/// A reference to a set of records that are consecutive in their table.
pub struct TableContiguousReference(pub TableReferenceSet<Range<usize>>);

impl View for TableContiguousReference {
    type V = ReferenceSetView<Range<usize>>;

    open spec fn view(&self) -> ReferenceSetView<Range<usize>> {
        self.0@
    }
}

impl ReferenceSetView<Range<usize>> {
    /// Whether the range of an unresolved set, moved by `offset`, lies within
    /// a table of `table_len` cells.
    pub open spec fn resolvable(self, table_len: nat, offset: int) -> bool {
        self matches ReferenceSetView::Unresolved(range) ==> range.start <= range.end && range.end
            + offset <= table_len
    }

    /// The set after resolving it against `table`: an unresolved range
    /// becomes the cells of that range moved by `offset`, a resolved set
    /// stays as it is.
    pub open spec fn resolved_with(self, table: Seq<TableCell>, offset: int) -> Self {
        match self {
            ReferenceSetView::Unresolved(range) => ReferenceSetView::Resolved(
                table.subrange(range.start + offset, range.end + offset),
            ),
            ReferenceSetView::Resolved(cells) => ReferenceSetView::Resolved(cells),
        }
    }
}

impl TableContiguousReference {
    pub fn invalid() -> (r: Self)
        ensures
            r@ == ReferenceSetView::<Range<usize>>::Unresolved(INVALID_INDEX..INVALID_INDEX),
    {
        TableContiguousReference(TableReferenceSet::Unresolved(INVALID_INDEX..INVALID_INDEX))
    }

    /// An unresolved set of `count` records from `start` on. Where the end
    /// of the range is more than the machine can count, it is the largest
    /// index there is.
    pub fn new_from_count(start: usize, count: usize) -> (r: Self)
        ensures
            r@ == ReferenceSetView::<Range<usize>>::Unresolved(span(start, count)),
    {
        let end: usize = if count <= usize::MAX - start {
            start + count
        } else {
            usize::MAX
        };
        TableContiguousReference(TableReferenceSet::Unresolved(start..end))
    }

    /// Whether the set can be resolved against a table of `table_len`
    /// cells, its range moved by `offset`.
    pub fn can_resolve(&self, table_len: usize, offset: usize) -> (b: bool)
        ensures
            b == self@.resolvable(table_len as nat, offset as int),
    {
        match &self.0 {
            TableReferenceSet::Unresolved(range) => range.start <= range.end && offset
                <= table_len && range.end <= table_len - offset,
            TableReferenceSet::Resolved(_) => true,
        }
    }

    pub fn resolve(&mut self, table: &[TableCell])
        requires
            old(self)@.resolvable(table@.len(), 0),
        ensures
            final(self)@ == old(self)@.resolved_with(table@, 0),
    {
        self.resolve_with_offset(table, 0)
    }

    pub fn resolve_with_offset(&mut self, table: &[TableCell], offset: usize)
        requires
            old(self)@.resolvable(table@.len(), offset as int),
        ensures
            final(self)@ == old(self)@.resolved_with(table@, offset as int),
    {
        let len: usize = table.len();
        let mut bounds: Option<(usize, usize)> = None;
        match &self.0 {
            TableReferenceSet::Unresolved(range) => {
                bounds = Some((range.start + offset, range.end + offset));
            },
            TableReferenceSet::Resolved(_) => {},
        }
        if let Some((start, end)) = bounds {
            let mut set: Vec<TableCell> = Vec::new();
            let mut i: usize = start;
            while i < end
                invariant
                    start <= i <= end <= table@.len(),
                    set@ == table@.subrange(start as int, i as int),
                decreases end - i,
            {
                set.push(table[i]);
                i = i + 1;
                assert(set@ =~= table@.subrange(start as int, i as int));
            }
            self.0 = TableReferenceSet::Resolved(set);
        }
    }
}

/// How an element of a linked set names the element after it.
pub trait LinkedReference: Sized {
    /// The cell after this one, if there is one.
    spec fn next_cell(&self) -> Option<TableCell>;

    fn next(&self) -> (r: Option<TableCell>)
        ensures
            r == self.next_cell(),
    ;
}

/// The cells of the list that starts at `current`, found by following
/// [`LinkedReference::next_cell`] through `store` for at most `fuel` steps.
/// There is no such list where a handle leaves the store or the list has not
/// ended after `fuel` steps.
pub open spec fn linked_cells<T: LinkedReference>(
    store: Seq<T>,
    current: TableCell,
    fuel: nat,
) -> Option<Seq<TableCell>>
    decreases fuel,
{
    if current.slot >= store.len() {
        None
    } else {
        match store[current.slot as int].next_cell() {
            None => Some(seq![current]),
            Some(next) => if fuel == 0 {
                None
            } else {
                match linked_cells(store, next, (fuel - 1) as nat) {
                    Some(rest) => Some(seq![current] + rest),
                    None => None,
                }
            },
        }
    }
}

/// A reference to a set of records that are joined as a linked list.
pub struct TableLinkedReference(pub TableReferenceSet<usize>);

impl View for TableLinkedReference {
    type V = ReferenceSetView<usize>;

    open spec fn view(&self) -> ReferenceSetView<usize> {
        self.0@
    }
}

impl ReferenceSetView<usize> {
    /// The cells that an unresolved linked set stands for: none where the
    /// start is the invalid index, else the list that starts at that index of
    /// `table`. A list longer than the store has a cycle and does not count.
    pub open spec fn linked_target<T: LinkedReference>(self, table: Seq<TableCell>, store: Seq<T>) -> Option<
        Seq<TableCell>,
    > {
        match self {
            ReferenceSetView::Resolved(cells) => Some(cells),
            ReferenceSetView::Unresolved(start) => if start == INVALID_INDEX {
                Some(Seq::empty())
            } else if start >= table.len() {
                None
            } else {
                linked_cells(store, table[start as int], store.len())
            },
        }
    }
}

impl TableLinkedReference {
    pub fn invalid() -> (r: Self)
        ensures
            r@ == ReferenceSetView::<usize>::Unresolved(INVALID_INDEX),
    {
        Self::new(INVALID_INDEX)
    }

    pub fn new(start: usize) -> (r: Self)
        ensures
            r@ == ReferenceSetView::<usize>::Unresolved(start),
    {
        TableLinkedReference(TableReferenceSet::Unresolved(start))
    }

    /// Resolves the set by walking the list from its start. Returns whether
    /// the set is resolved afterwards; where the start lies outside `table`,
    /// a handle leaves `store` or the list does not end, the set stays as it
    /// was.
    pub fn resolve<T: LinkedReference>(&mut self, table: &[TableCell], store: &CellStore<T>) -> (done: bool)
        ensures
            done == old(self)@.linked_target(table@, store@).is_some(),
            done ==> final(self)@ == ReferenceSetView::<usize>::Resolved(
                old(self)@.linked_target(table@, store@).unwrap(),
            ),
            !done ==> final(self)@ == old(self)@,
    {
        let start: usize = match &self.0 {
            TableReferenceSet::Unresolved(start) => *start,
            TableReferenceSet::Resolved(_) => {
                return true;
            },
        };
        if start == INVALID_INDEX {
            self.0 = TableReferenceSet::Resolved(Vec::new());
            return true;
        }
        if start >= table.len() {
            return false;
        }
        let limit: usize = store.len();
        let ghost whole = linked_cells(store@, table@[start as int], limit as nat);
        let mut current: TableCell = table[start];
        let mut set: Vec<TableCell> = Vec::new();
        let mut steps: usize = 0;
        loop
            invariant
                steps <= limit,
                limit == store@.len(),
                set@.len() == steps,
                whole == (match linked_cells(store@, current, (limit - steps) as nat) {
                    Some(rest) => Some(set@ + rest),
                    None => None,
                }),
                self.0@ == old(self)@,
                old(self)@ == ReferenceSetView::<usize>::Unresolved(start),
                start != INVALID_INDEX,
                start < table@.len(),
                whole == old(self)@.linked_target(table@, store@),
            decreases limit - steps,
        {
            if current.slot >= limit as u64 {
                return false;
            }
            let next = store.cells[current.slot as usize].next();
            match next {
                None => {
                    let ghost before = set@;
                    set.push(current);
                    assert(whole == Some(set@)) by {
                        assert(before + seq![current] =~= set@);
                    }
                    self.0 = TableReferenceSet::Resolved(set);
                    return true;
                },
                Some(cell) => {
                    if steps == limit {
                        return false;
                    }
                    let ghost before = set@;
                    set.push(current);
                    assert forall|rest: Seq<TableCell>| before + (seq![current] + rest) == set@
                        + rest by {
                        assert(before + (seq![current] + rest) =~= set@ + rest);
                    }
                    current = cell;
                    steps = steps + 1;
                },
            }
        }
    }
}

/// The table after `cell` was pushed onto it. A cell enters a table once, and
/// a table holds no more cells than a 32-bit index can count.
pub open spec fn pushed(table: Seq<TableCell>, cell: TableCell) -> Option<Seq<TableCell>> {
    if table.contains(cell) || table.len() >= u32::MAX {
        None
    } else {
        Some(table.push(cell))
    }
}

/// The index of `cell` in `table`.
pub open spec fn position(table: Seq<TableCell>, cell: TableCell) -> int {
    choose|i: int| 0 <= i < table.len() && table[i] == cell
}

/// A collector that rebuilds a table and remembers, for every cell it holds,
/// the index that the cell has in the new table.
pub struct TableMaker {
    pub table: Vec<TableCell>,
    pub slot_to_index: HashMap<u64, u32>,
}

impl View for TableMaker {
    type V = Seq<TableCell>;

    open spec fn view(&self) -> Seq<TableCell> {
        self.table@
    }
}

impl TableMaker {
    /// The lookup agrees with the table: it knows exactly the cells of the
    /// table, each under its index. No cell occurs twice.
    pub open spec fn wf(&self) -> bool {
        &&& self.table@.len() <= u32::MAX
        &&& forall|i: int|
            0 <= i < self.table@.len() ==> self.slot_to_index@.contains_key(
                #[trigger] self.table@[i].slot,
            ) && self.slot_to_index@[self.table@[i].slot] == i
        &&& forall|slot: u64| #[trigger]
            self.slot_to_index@.contains_key(slot) ==> self.slot_to_index@[slot]
                < self.table@.len() && self.table@[self.slot_to_index@[slot] as int].slot == slot
    }

    /// Whether the table holds `cell`.
    pub open spec fn has(&self, cell: TableCell) -> bool {
        self.slot_to_index@.contains_key(cell.slot)
    }

    /// The index of `cell` in the table.
    pub open spec fn index_of(&self, cell: TableCell) -> u32 {
        self.slot_to_index@[cell.slot]
    }

    pub fn new() -> (maker: Self)
        ensures
            maker.wf(),
            maker@ == Seq::<TableCell>::empty(),
            forall|cell: TableCell| !maker.has(cell),
    {
        TableMaker { table: Vec::new(), slot_to_index: HashMap::new() }
    }

    pub fn push(&mut self, cell: TableCell)
        requires
            old(self).wf(),
            !old(self).has(cell),
            old(self)@.len() < u32::MAX,
        ensures
            final(self).wf(),
            final(self)@ == old(self)@.push(cell),
            final(self).index_of(cell) == old(self)@.len(),
            forall|other: TableCell|
                final(self).has(other) == (old(self).has(other) || other == cell),
            forall|other: TableCell|
                old(self).has(other) ==> final(self).index_of(other) == old(self).index_of(other),
    {
        let index: u32 = self.table.len() as u32;
        self.slot_to_index.insert(cell.slot, index);
        self.table.push(cell);
        assert forall|i: int| 0 <= i < self.table@.len() implies self.slot_to_index@.contains_key(
            #[trigger] self.table@[i].slot,
        ) && self.slot_to_index@[self.table@[i].slot] == i by {
            if i < old(self).table@.len() {
                assert(old(self).table@[i].slot != cell.slot);
            }
        }
    }

    pub fn has_cell(&self, cell: &TableCell) -> (b: bool)
        ensures
            b == self.has(*cell),
            self.wf() ==> b == self@.contains(*cell),
    {
        proof {
            if self.wf() {
                self.lemma_index(*cell);
            }
        }
        self.slot_to_index.contains_key(&cell.slot)
    }

    /// Pushes `cell` unless the table holds it already or is full. Returns
    /// whether the cell was pushed.
    pub fn push_new(&mut self, cell: TableCell) -> (done: bool)
        requires
            old(self).wf(),
        ensures
            final(self).wf(),
            done == pushed(old(self)@, cell).is_some(),
            done ==> Some(final(self)@) == pushed(old(self)@, cell),
            !done ==> final(self)@ == old(self)@,
    {
        if self.has_cell(&cell) || self.table.len() >= u32::MAX as usize {
            false
        } else {
            self.push(cell);
            true
        }
    }

    pub fn get_index(&self, cell: &TableCell) -> (index: u32)
        requires
            self.has(*cell),
        ensures
            index == self.index_of(*cell),
            self.wf() ==> index == position(self@, *cell),
    {
        proof {
            if self.wf() {
                self.lemma_index(*cell);
                let found = position(self@, *cell);
                assert(self.slot_to_index@[self.table@[found].slot] == found);
            }
        }
        let found = self.slot_to_index.get(&cell.slot);
        match found {
            Some(index) => *index,
            None => vstd::pervasive::unreached(),
        }
    }

    /// The cells of the table, in order.
    pub fn iter(&self) -> (cells: &[TableCell])
        ensures
            cells@ == self@,
    {
        self.table.as_slice()
    }

    pub fn into_inner(self) -> (table: Vec<TableCell>)
        ensures
            table@ == self@,
    {
        self.table
    }

    pub fn len(&self) -> (n: usize)
        ensures
            n == self@.len(),
    {
        self.table.len()
    }

    /// A cell that the table holds stands at the index that the lookup gives
    /// for it, and a cell at some index of the table is held.
    pub proof fn lemma_index(&self, cell: TableCell)
        requires
            self.wf(),
        ensures
            self.has(cell) ==> self.index_of(cell) < self@.len() && self@[self.index_of(
                cell,
            ) as int] == cell,
            self.has(cell) <==> self@.contains(cell),
    {
        if self.has(cell) {
            let i = self.index_of(cell) as int;
            assert(self@[i].slot == cell.slot);
            assert(self@[i] == cell);
        }
        if self@.contains(cell) {
            let i = choose|i: int| 0 <= i < self@.len() && self@[i] == cell;
            assert(self.slot_to_index@.contains_key(self.table@[i].slot));
        }
    }
}

impl Default for TableMaker {
    fn default() -> (maker: Self)
        ensures
            maker.wf(),
            maker@ == Seq::<TableCell>::empty(),
    {
        Self::new()
    }
}

} // verus!
