//! The shapes that the engines share: a round over a table that changes
//! records, a walk over cells that builds tables, and the bytes of a table.
use vstd::prelude::*;

use crate::bytes::{le64, push_u64};
use crate::engines::packaged::bucket_map::{lemma_ordered, lists, ordered};
use crate::engines::table::{position, pushed, TableCell, TableMaker};
use crate::engines::{identity_cells, Hash40, HashKey};

verus! {

/// The index of `cell` in `table`, if the table holds the cell.
pub open spec fn index_in(table: Seq<TableCell>, cell: TableCell) -> Option<u32> {
    if table.contains(cell) {
        Some(position(table, cell) as u32)
    } else {
        None
    }
}

pub fn find_index(maker: &TableMaker, cell: &TableCell) -> (index: Option<u32>)
    requires
        maker.wf(),
    ensures
        index == index_in(maker@, *cell),
{
    if maker.has_cell(cell) {
        Some(maker.get_index(cell))
    } else {
        None
    }
}

/// One round over a table: the records of `store` after each of the first
/// `upto` cells of `table`, in order, was put through `step`. The step gets
/// the record and the index of the cell in the table. There is no result
/// where a cell has no record in the store or a step fails.
pub open spec fn pass<V>(
    store: Seq<V>,
    table: Seq<TableCell>,
    upto: nat,
    step: spec_fn(V, int) -> Option<V>,
) -> Option<Seq<V>>
    decreases upto,
{
    if upto == 0 {
        Some(store)
    } else {
        match pass(store, table, (upto - 1) as nat, step) {
            None => None,
            Some(records) => {
                let cell = table[upto - 1];
                if cell.slot >= records.len() {
                    None
                } else {
                    match step(records[cell.slot as int], upto - 1) {
                        None => None,
                        Some(record) => Some(records.update(cell.slot as int, record)),
                    }
                }
            },
        }
    }
}

/// A round that fails after some cells fails after more cells too.
pub proof fn lemma_pass_fails<V>(
    store: Seq<V>,
    table: Seq<TableCell>,
    short: nat,
    long: nat,
    step: spec_fn(V, int) -> Option<V>,
)
    requires
        short <= long,
        pass(store, table, short, step) is None,
    ensures
        pass(store, table, long, step) is None,
    decreases long,
{
    if short < long {
        lemma_pass_fails(store, table, short, (long - 1) as nat, step);
    }
}

/// A round keeps the number of records.
pub proof fn lemma_pass_len<V>(
    store: Seq<V>,
    table: Seq<TableCell>,
    upto: nat,
    step: spec_fn(V, int) -> Option<V>,
)
    ensures
        pass(store, table, upto, step) matches Some(records) ==> records.len() == store.len(),
    decreases upto,
{
    if upto > 0 {
        lemma_pass_len(store, table, (upto - 1) as nat, step);
    }
}

/// The state after each of the first `upto` cells of `cells`, in order, was
/// put through `step`. There is no state where a step fails.
pub open spec fn walk<S>(
    state: S,
    cells: Seq<TableCell>,
    upto: nat,
    step: spec_fn(S, TableCell) -> Option<S>,
) -> Option<S>
    decreases upto,
{
    if upto == 0 {
        Some(state)
    } else {
        match walk(state, cells, (upto - 1) as nat, step) {
            None => None,
            Some(before) => step(before, cells[upto - 1]),
        }
    }
}

/// A walk that fails after some cells fails after more cells too.
pub proof fn lemma_walk_fails<S>(
    state: S,
    cells: Seq<TableCell>,
    short: nat,
    long: nat,
    step: spec_fn(S, TableCell) -> Option<S>,
)
    requires
        short <= long,
        walk(state, cells, short, step) is None,
    ensures
        walk(state, cells, long, step) is None,
    decreases long,
{
    if short < long {
        lemma_walk_fails(state, cells, short, (long - 1) as nat, step);
    }
}

/// The bytes of the first `upto` records of a table: each cell's record put
/// through `encode`, which gets the record and the index of the cell. There
/// are no bytes where a cell has no record or a record has no bytes.
pub open spec fn table_bytes<V>(
    records: Seq<V>,
    table: Seq<TableCell>,
    upto: nat,
    encode: spec_fn(V, int) -> Option<Seq<u8>>,
) -> Option<Seq<u8>>
    decreases upto,
{
    if upto == 0 {
        Some(Seq::empty())
    } else {
        match table_bytes(records, table, (upto - 1) as nat, encode) {
            None => None,
            Some(head) => {
                let cell = table[upto - 1];
                if cell.slot >= records.len() {
                    None
                } else {
                    match encode(records[cell.slot as int], upto - 1) {
                        None => None,
                        Some(bytes) => Some(head + bytes),
                    }
                }
            },
        }
    }
}

/// A table that has no bytes after some records has none after more.
pub proof fn lemma_table_bytes_fails<V>(
    records: Seq<V>,
    table: Seq<TableCell>,
    short: nat,
    long: nat,
    encode: spec_fn(V, int) -> Option<Seq<u8>>,
)
    requires
        short <= long,
        table_bytes(records, table, short, encode) is None,
    ensures
        table_bytes(records, table, long, encode) is None,
    decreases long,
{
    if short < long {
        lemma_table_bytes_fails(records, table, short, (long - 1) as nat, encode);
    }
}

/// The keys of a lookup: for each of the first `upto` pairs, the hash packed
/// with the index that the cell has in `table`. There are no bytes where the
/// table does not hold a cell.
pub open spec fn key_bytes(entries: Seq<(u64, TableCell)>, table: Seq<TableCell>, upto: nat)
    -> Option<Seq<u8>>
    decreases upto,
{
    if upto == 0 {
        Some(Seq::empty())
    } else {
        match key_bytes(entries, table, (upto - 1) as nat) {
            None => None,
            Some(head) => match index_in(table, entries[upto - 1].1) {
                None => None,
                Some(index) => Some(
                    head + le64(HashKey::pack(Hash40(entries[upto - 1].0), index as usize).0),
                ),
            },
        }
    }
}

/// Keys that have no bytes after some pairs have none after more.
pub proof fn lemma_key_bytes_fails(
    entries: Seq<(u64, TableCell)>,
    table: Seq<TableCell>,
    short: nat,
    long: nat,
)
    requires
        short <= long,
        key_bytes(entries, table, short) is None,
    ensures
        key_bytes(entries, table, long) is None,
    decreases long,
{
    if short < long {
        lemma_key_bytes_fails(entries, table, short, (long - 1) as nat);
    }
}

/// Appends the keys of a lookup. Returns false at the first cell that the
/// table does not hold.
pub fn write_keys(out: &mut Vec<u8>, entries: &[(u64, TableCell)], maker: &TableMaker) -> (done:
    bool)
    requires
        maker.wf(),
    ensures
        done == key_bytes(entries@, maker@, entries@.len()).is_some(),
        done ==> final(out)@ == old(out)@ + key_bytes(entries@, maker@, entries@.len()).unwrap(),
{
    let mut i: usize = 0;
    while i < entries.len()
        invariant
            i <= entries@.len(),
            maker.wf(),
            key_bytes(entries@, maker@, i as nat) is Some,
            out@ == old(out)@ + key_bytes(entries@, maker@, i as nat).unwrap(),
        decreases entries@.len() - i,
    {
        let pair = entries[i];
        match find_index(maker, &pair.1) {
            None => {
                proof {
                    lemma_key_bytes_fails(entries@, maker@, (i + 1) as nat, entries@.len());
                }
                return false;
            },
            Some(index) => {
                push_u64(out, HashKey::new(Hash40(pair.0), index as usize).0);
            },
        }
        proof {
            let bytes = key_bytes(entries@, maker@, (i + 1) as nat).unwrap();
            assert(out@ =~= old(out)@ + bytes);
        }
        i = i + 1;
    }
    true
}

/// One part after the other, where both have bytes.
pub open spec fn join(head: Option<Seq<u8>>, tail: Option<Seq<u8>>) -> Option<Seq<u8>> {
    match (head, tail) {
        (Some(head), Some(tail)) => Some(head + tail),
        _ => None,
    }
}


/// After a round, each record that the round went over is settled, where
/// every step settles its record.
pub proof fn lemma_pass_settles<V>(
    store: Seq<V>,
    table: Seq<TableCell>,
    upto: nat,
    step: spec_fn(V, int) -> Option<V>,
    settled: spec_fn(V) -> bool,
)
    requires
        forall|v: V, i: int| (#[trigger] step(v, i)) matches Some(w) ==> settled(w),
        forall|v: V, i: int| settled(v) ==> #[trigger] step(v, i) == Some(v),
        pass(store, table, upto, step) is Some,
    ensures
        pass(store, table, upto, step).unwrap().len() == store.len(),
        forall|j: int|
            0 <= j < upto ==> (#[trigger] table[j]).slot < store.len() && settled(
                pass(store, table, upto, step).unwrap()[table[j].slot as int],
            ),
    decreases upto,
{
    lemma_pass_len(store, table, upto, step);
    if upto > 0 {
        lemma_pass_settles(store, table, (upto - 1) as nat, step, settled);
        lemma_pass_len(store, table, (upto - 1) as nat, step);
        let before = pass(store, table, (upto - 1) as nat, step).unwrap();
        let cell = table[upto - 1];
        let after = pass(store, table, upto, step).unwrap();
        assert(step(before[cell.slot as int], upto - 1) is Some);
        assert forall|j: int| 0 <= j < upto implies (#[trigger] table[j]).slot < store.len()
            && settled(after[table[j].slot as int]) by {
            if j < upto - 1 {
                assert(settled(before[table[j].slot as int]));
            }
        }
    }
}

/// A round over records that are all settled changes nothing.
pub proof fn lemma_pass_fixed<V>(
    store: Seq<V>,
    table: Seq<TableCell>,
    upto: nat,
    step: spec_fn(V, int) -> Option<V>,
    settled: spec_fn(V) -> bool,
)
    requires
        forall|v: V, i: int| settled(v) ==> #[trigger] step(v, i) == Some(v),
        forall|j: int|
            0 <= j < upto ==> (#[trigger] table[j]).slot < store.len() && settled(
                store[table[j].slot as int],
            ),
    ensures
        pass(store, table, upto, step) == Some(store),
    decreases upto,
{
    if upto > 0 {
        lemma_pass_fixed(store, table, (upto - 1) as nat, step, settled);
        let cell = table[upto - 1];
        assert(step(store[cell.slot as int], upto - 1) == Some(store[cell.slot as int]));
        assert(store.update(cell.slot as int, store[cell.slot as int]) =~= store);
    }
}

/// A round that is run a second time, over the records that the first run
/// left, changes nothing: where every step settles its record and a settled
/// record is left as it is by every step.
pub proof fn lemma_pass_idempotent<V>(
    store: Seq<V>,
    table: Seq<TableCell>,
    upto: nat,
    step: spec_fn(V, int) -> Option<V>,
    settled: spec_fn(V) -> bool,
)
    requires
        forall|v: V, i: int| (#[trigger] step(v, i)) matches Some(w) ==> settled(w),
        forall|v: V, i: int| settled(v) ==> #[trigger] step(v, i) == Some(v),
        pass(store, table, upto, step) is Some,
    ensures
        pass(pass(store, table, upto, step).unwrap(), table, upto, step) == pass(
            store,
            table,
            upto,
            step,
        ),
{
    lemma_pass_settles(store, table, upto, step, settled);
    lemma_pass_fixed(pass(store, table, upto, step).unwrap(), table, upto, step, settled);
}


/// A round keeps what every step keeps: a record that has a property
/// before the round has it after the round, where no step takes the
/// property from a record.
pub proof fn lemma_pass_keeps<V>(
    store: Seq<V>,
    table: Seq<TableCell>,
    upto: nat,
    step: spec_fn(V, int) -> Option<V>,
    kept: spec_fn(V) -> bool,
)
    requires
        forall|v: V, i: int| kept(v) && (#[trigger] step(v, i)) is Some ==> kept(step(v, i).unwrap()),
        pass(store, table, upto, step) is Some,
    ensures
        pass(store, table, upto, step).unwrap().len() == store.len(),
        forall|x: int|
            0 <= x < store.len() && kept(store[x]) ==> kept(
                #[trigger] pass(store, table, upto, step).unwrap()[x],
            ),
    decreases upto,
{
    lemma_pass_len(store, table, upto, step);
    if upto > 0 {
        lemma_pass_keeps(store, table, (upto - 1) as nat, step, kept);
        lemma_pass_len(store, table, (upto - 1) as nat, step);
        let before = pass(store, table, (upto - 1) as nat, step).unwrap();
        let cell = table[upto - 1];
        let after = pass(store, table, upto, step).unwrap();
        assert(step(before[cell.slot as int], upto - 1) is Some);
        assert forall|x: int| 0 <= x < store.len() && kept(store[x]) implies kept(
            #[trigger] after[x],
        ) by {
            assert(kept(before[x]));
        }
    }
}


/// The records after the first `upto` of them were put through `step`.
pub open spec fn stepped<V>(store: Seq<V>, upto: nat, step: spec_fn(V, int) -> Option<V>) -> Seq<V> {
    Seq::new(
        store.len(),
        |i: int|
            if i < upto {
                step(store[i], i).unwrap()
            } else {
                store[i]
            },
    )
}

/// A round over the table that lists the cells of a store in the order of
/// the store puts each record through its step, where every step succeeds.
pub proof fn lemma_pass_in_order<V>(store: Seq<V>, upto: nat, step: spec_fn(V, int) -> Option<V>)
    requires
        upto <= store.len() <= usize::MAX,
        forall|i: int| 0 <= i < upto ==> (#[trigger] step(store[i], i)) is Some,
    ensures
        pass(store, identity_cells(store.len()), upto, step) == Some(stepped(store, upto, step)),
    decreases upto,
{
    if upto == 0 {
        assert(stepped(store, upto, step) =~= store);
    } else {
        lemma_pass_in_order(store, (upto - 1) as nat, step);
        let before = stepped(store, (upto - 1) as nat, step);
        let cell = identity_cells(store.len())[upto - 1];
        assert(cell.slot == upto - 1);
        assert(before[upto - 1] == store[upto - 1]);
        assert(step(store[upto - 1], upto - 1) is Some);
        assert(before.update(upto - 1, step(store[upto - 1], upto - 1).unwrap()) =~= stepped(
            store,
            upto,
            step,
        ));
    }
}


/// Two tables whose records have the same bytes, place by place, have the
/// same bytes.
pub proof fn lemma_table_bytes_same<V>(
    records: Seq<V>,
    table: Seq<TableCell>,
    encode: spec_fn(V, int) -> Option<Seq<u8>>,
    other_records: Seq<V>,
    other_table: Seq<TableCell>,
    other_encode: spec_fn(V, int) -> Option<Seq<u8>>,
    upto: nat,
)
    requires
        forall|i: int|
            0 <= i < upto ==> (#[trigger] table[i]).slot < records.len() && other_table[i].slot
                < other_records.len() && encode(records[table[i].slot as int], i) == other_encode(
                other_records[other_table[i].slot as int],
                i,
            ),
    ensures
        table_bytes(records, table, upto, encode) == table_bytes(
            other_records,
            other_table,
            upto,
            other_encode,
        ),
    decreases upto,
{
    if upto > 0 {
        lemma_table_bytes_same(
            records,
            table,
            encode,
            other_records,
            other_table,
            other_encode,
            (upto - 1) as nat,
        );
        assert(table[upto - 1].slot < records.len());
    }
}


/// Where a table has bytes, each of its cells has a record, and the record
/// has bytes.
pub proof fn lemma_table_bytes_cells<V>(
    records: Seq<V>,
    table: Seq<TableCell>,
    upto: nat,
    encode: spec_fn(V, int) -> Option<Seq<u8>>,
)
    requires
        table_bytes(records, table, upto, encode) is Some,
    ensures
        forall|i: int|
            0 <= i < upto ==> (#[trigger] table[i]).slot < records.len() && encode(
                records[table[i].slot as int],
                i,
            ) is Some,
    decreases upto,
{
    if upto > 0 {
        lemma_table_bytes_cells(records, table, (upto - 1) as nat, encode);
    }
}

/// Two lists of pairs with the same hashes, whose cells have the same
/// indices in their tables, have the same keys.
pub proof fn lemma_key_bytes_same(
    entries: Seq<(u64, TableCell)>,
    table: Seq<TableCell>,
    other_entries: Seq<(u64, TableCell)>,
    other_table: Seq<TableCell>,
    upto: nat,
)
    requires
        forall|i: int|
            0 <= i < upto ==> (#[trigger] entries[i]).0 == other_entries[i].0 && index_in(
                table,
                entries[i].1,
            ) == index_in(other_table, other_entries[i].1),
    ensures
        key_bytes(entries, table, upto) == key_bytes(other_entries, other_table, upto),
    decreases upto,
{
    if upto > 0 {
        lemma_key_bytes_same(entries, table, other_entries, other_table, (upto - 1) as nat);
        assert(entries[upto - 1].0 == other_entries[upto - 1].0);
    }
}


/// Whether no cell occurs twice in the table.
pub open spec fn distinct(table: Seq<TableCell>) -> bool {
    forall|i: int, j: int| 0 <= i < j < table.len() ==> table[i] != table[j]
}

/// Whether `after` starts with `before`.
pub open spec fn prefix(before: Seq<TableCell>, after: Seq<TableCell>) -> bool {
    &&& before.len() <= after.len()
    &&& forall|i: int| 0 <= i < before.len() ==> #[trigger] after[i] == before[i]
}

/// Whether the table holds `cells` in a row from `start` on.
pub open spec fn placed_at(table: Seq<TableCell>, cells: Seq<TableCell>, start: int) -> bool {
    &&& 0 <= start
    &&& start + cells.len() <= table.len()
    &&& forall|k: int| 0 <= k < cells.len() ==> #[trigger] cells[k] == table[start + k]
}

/// Whether the table holds `cells` in a row.
pub open spec fn placed(table: Seq<TableCell>, cells: Seq<TableCell>) -> bool {
    exists|start: int| #[trigger] placed_at(table, cells, start)
}

/// Pushing a new cell keeps a table free of doubles and extends it.
pub proof fn lemma_pushed(table: Seq<TableCell>, cell: TableCell)
    requires
        distinct(table),
        pushed(table, cell) is Some,
    ensures
        distinct(table.push(cell)),
        prefix(table, table.push(cell)),
        pushed(table, cell) == Some(table.push(cell)),
{
    let after = table.push(cell);
    assert forall|i: int, j: int| 0 <= i < j < after.len() implies after[i] != after[j] by {
        if j == table.len() {
            assert(table[i] == after[i]);
            assert(table.contains(table[i]));
        }
    }
}

/// Cells that a table holds in a row are held in a row by every table that
/// starts with it.
pub proof fn lemma_placed_prefix(before: Seq<TableCell>, after: Seq<TableCell>, cells: Seq<TableCell>)
    requires
        prefix(before, after),
        placed(before, cells),
    ensures
        placed(after, cells),
{
    let start = choose|start: int| #[trigger] placed_at(before, cells, start);
    assert(placed_at(after, cells, start)) by {
        assert forall|k: int| 0 <= k < cells.len() implies #[trigger] cells[k] == after[start + k] by {
            assert(after[start + k] == before[start + k]);
        }
    }
}

/// In a table without doubles, cells that stand in a row from `start` on
/// have the places `start`, `start + 1` and so on.
pub proof fn lemma_placed_positions(table: Seq<TableCell>, cells: Seq<TableCell>, start: int)
    requires
        distinct(table),
        placed_at(table, cells, start),
    ensures
        forall|k: int|
            0 <= k < cells.len() ==> table.contains(#[trigger] cells[k]) && position(
                table,
                cells[k],
            ) == start + k,
{
    assert forall|k: int| 0 <= k < cells.len() implies table.contains(#[trigger] cells[k])
        && position(table, cells[k]) == start + k by {
        assert(table[start + k] == cells[k]);
        let found = position(table, cells[k]);
        assert(0 <= found < table.len() && table[found] == cells[k]);
        if found < start + k {
            assert(table[found] != table[start + k]);
        } else if found > start + k {
            assert(table[start + k] != table[found]);
        }
    }
}


/// The cell that names `cell` by its place in `table`.
pub open spec fn place(table: Seq<TableCell>, cell: TableCell) -> TableCell {
    TableCell { slot: position(table, cell) as u64 }
}

/// The cells of a set, each named by its place in the table.
pub open spec fn renumbered(table: Seq<TableCell>, cells: Seq<TableCell>) -> Seq<TableCell> {
    Seq::new(cells.len(), |k: int| place(table, cells[k]))
}

/// A table that lists its cells by number holds the cells below its length,
/// and grows by the cell of its length.
pub proof fn lemma_numbered_table(count: nat, cell: TableCell)
    requires
        count <= u32::MAX,
    ensures
        identity_cells(count).contains(cell) <==> cell.slot < count,
        count < u32::MAX ==> pushed(identity_cells(count), TableCell { slot: count as u64 })
            == Some(identity_cells(count + 1)),
{
    let table = identity_cells(count);
    if cell.slot < count {
        assert(table[cell.slot as int] == cell);
    }
    assert(!table.contains(TableCell { slot: count as u64 }));
    assert(table.push(TableCell { slot: count as u64 }) =~= identity_cells(count + 1));
}

/// In a table without doubles, the cells of a table that it starts with
/// have the places that they have there, and a cell that the start lacks
/// has a later place.
pub proof fn lemma_prefix_places(before: Seq<TableCell>, all: Seq<TableCell>, cell: TableCell)
    requires
        distinct(all),
        prefix(before, all),
        all.contains(cell),
    ensures
        0 <= position(all, cell) < all.len(),
        all[position(all, cell)] == cell,
        before.contains(cell) <==> position(all, cell) < before.len(),
{
    let at = position(all, cell);
    assert(placed_at(all, before, 0)) by {
        assert forall|k: int| 0 <= k < before.len() implies #[trigger] before[k] == all[0 + k] by {
            assert(all[k] == before[k]);
        }
    }
    lemma_placed_positions(all, before, 0);
    if before.contains(cell) {
        let k = choose|k: int| 0 <= k < before.len() && before[k] == cell;
        assert(position(all, before[k]) == 0 + k);
    }
    if at < before.len() {
        assert(all[at] == before[at]);
    }
}

/// Starting with a table is passed on: what starts a table starts every
/// table that this one starts.
pub proof fn lemma_prefix_chain(a: Seq<TableCell>, b: Seq<TableCell>, all: Seq<TableCell>)
    requires
        prefix(a, b),
        prefix(b, all),
    ensures
        prefix(a, all),
{
    assert forall|i: int| 0 <= i < a.len() implies #[trigger] all[i] == a[i] by {
        assert(b[i] == a[i]);
    }
}

/// The cell of a place has, in the table that lists its cells by number,
/// the index that the cell itself has in its table.
pub proof fn lemma_numbered_index(table: Seq<TableCell>, cell: TableCell)
    requires
        table.len() <= u32::MAX,
        table.contains(cell),
    ensures
        index_in(identity_cells(table.len()), place(table, cell)) == index_in(table, cell),
{
    let at = position(table, cell);
    let numbers = identity_cells(table.len());
    assert(numbers[at] == place(table, cell));
    let found = position(numbers, place(table, cell));
    assert(0 <= found < numbers.len() && numbers[found] == place(table, cell));
}

/// A lookup whose cells are renamed by their places in a table has, against
/// the table that lists its cells by number, the keys that the lookup
/// itself has against the table.
pub proof fn lemma_renamed_keys(
    lookup: Map<u64, TableCell>,
    renamed: Map<u64, TableCell>,
    table: Seq<TableCell>,
)
    requires
        table.len() <= u32::MAX,
        lists(ordered(lookup), lookup),
        forall|hash: u64| #[trigger] renamed.contains_key(hash) <==> lookup.contains_key(hash),
        forall|hash: u64| #[trigger]
            lookup.contains_key(hash) ==> table.contains(lookup[hash]) && renamed[hash] == place(
                table,
                lookup[hash],
            ),
    ensures
        key_bytes(ordered(renamed), identity_cells(table.len()), ordered(renamed).len())
            == key_bytes(ordered(lookup), table, ordered(lookup).len()),
{
    let entries = ordered(lookup);
    let other = Seq::new(entries.len(), |k: int| (entries[k].0, place(table, entries[k].1)));
    assert forall|k: int| 0 <= k < other.len() implies renamed.contains_key(
        (#[trigger] other[k]).0,
    ) && renamed[other[k].0] == other[k].1 by {
        assert(lookup.contains_key(entries[k].0));
    }
    assert forall|key: u64| #[trigger] renamed.contains_key(key) implies exists|k: int|
        0 <= k < other.len() && (#[trigger] other[k]).0 == key by {
        assert(lookup.contains_key(key));
        let k = choose|k: int| 0 <= k < entries.len() && (#[trigger] entries[k]).0 == key;
        assert(other[k].0 == key);
    }
    assert(lists(other, renamed)) by {
        assert forall|i: int, j: int| 0 <= i < j < other.len() implies other[i].0 < other[j].0 by {
            assert(entries[i].0 < entries[j].0);
        }
    }
    lemma_ordered(other, renamed);
    assert forall|k: int| 0 <= k < entries.len() implies (#[trigger] entries[k]).0 == other[k].0
        && index_in(table, entries[k].1) == index_in(identity_cells(table.len()), other[k].1) by {
        assert(lookup.contains_key(entries[k].0));
        lemma_numbered_index(table, entries[k].1);
    }
    lemma_key_bytes_same(entries, table, other, identity_cells(table.len()), entries.len());
}


/// In a table without doubles, the cell at an index has that index as its
/// place.
pub proof fn lemma_index_unique(table: Seq<TableCell>, at: int)
    requires
        distinct(table),
        0 <= at < table.len(),
    ensures
        table.contains(table[at]),
        position(table, table[at]) == at,
{
    let found = position(table, table[at]);
    assert(0 <= found < table.len() && table[found] == table[at]);
    if found < at {
        assert(table[found] != table[at]);
    } else if found > at {
        assert(table[at] != table[found]);
    }
}


/// Each pair of a lookup takes eight bytes.
pub proof fn lemma_key_bytes_len(entries: Seq<(u64, TableCell)>, table: Seq<TableCell>, upto: nat)
    requires
        key_bytes(entries, table, upto) is Some,
    ensures
        key_bytes(entries, table, upto).unwrap().len() == 8 * upto,
    decreases upto,
{
    if upto > 0 {
        lemma_key_bytes_len(entries, table, (upto - 1) as nat);
        crate::bytes::lemma_le_len();
    }
}

} // verus!
