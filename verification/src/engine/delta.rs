//! The rows by which one forest differs from another.

use vstd::prelude::*;

use crate::domain::coordinate::StreamUid;
use crate::domain::directory::{DirectoryEntry, DirectoryKey};
use crate::domain::ledger::{LedgerCell, RecordModel, StreamRecord};
use crate::domain::text::copy_bytes;
use crate::engine::forest::{Forest, ForestModel};

verus! {

/// Directory rows and Ledger cells, each in key order.
#[derive(Debug, PartialEq, Eq)]
pub struct ForestDelta {
    pub directory: Vec<(DirectoryKey, DirectoryEntry)>,
    pub ledger: Vec<(StreamUid, LedgerCell)>,
}

/// What rows and cells say.
#[verifier::ext_equal]
pub struct CellsModel {
    pub directory: Seq<(Seq<u8>, DirectoryEntry)>,
    pub ledger: Seq<(StreamUid, Option<RecordModel>)>,
}

impl View for ForestDelta {
    type V = CellsModel;

    open spec fn view(&self) -> CellsModel {
        CellsModel {
            directory: crate::domain::sst_directory::directory_rows(self.directory@),
            ledger: crate::domain::sst_ledger::ledger_rows(self.ledger@),
        }
    }
}

/// What a stream's Ledger cell holds; no record when there is none.
pub open spec fn cell_of(ledger: Map<u64, RecordModel>, uid: u64) -> Option<RecordModel> {
    if ledger.dom().contains(uid) {
        Some(ledger[uid])
    } else {
        None
    }
}

/// The Directory rows of `snapshot` that `base` does not hold.
pub open spec fn entries_since(
    snapshot: Map<Seq<u8>, DirectoryEntry>,
    base: Map<Seq<u8>, DirectoryEntry>,
) -> Map<Seq<u8>, DirectoryEntry> {
    Map::new(
        |path: Seq<u8>|
            snapshot.dom().contains(path) && !(base.dom().contains(path) && base[path]
                == snapshot[path]),
        |path: Seq<u8>| snapshot[path],
    )
}

/// The Ledger cells of `snapshot` that differ from what `base` holds; a record that
/// is gone leaves a delete.
pub open spec fn cells_since(
    snapshot: Map<u64, RecordModel>,
    base: Map<u64, RecordModel>,
) -> Map<u64, Option<RecordModel>> {
    Map::new(
        |uid: u64| cell_of(snapshot, uid) != cell_of(base, uid),
        |uid: u64| cell_of(snapshot, uid),
    )
}

/// `rows` lists what `cells` holds, each stream once, in numeric order.
pub open spec fn cells_list(
    rows: Seq<(StreamUid, Option<RecordModel>)>,
    cells: Map<u64, Option<RecordModel>>,
) -> bool {
    &&& crate::domain::sst_ledger::ledger_ordered(rows)
    &&& forall|i: int|
        #![trigger rows[i]]
        0 <= i < rows.len() ==> cells.dom().contains(rows[i].0.value)
            && cells[rows[i].0.value] == rows[i].1
    &&& forall|uid: u64| #[trigger]
        cells.dom().contains(uid) ==> exists|i: int|
            0 <= i < rows.len() && (#[trigger] rows[i]).0.value == uid
}

/// `cells` are the rows of `snapshot` that differ from `base`.
pub open spec fn is_delta(cells: CellsModel, snapshot: ForestModel, base: ForestModel) -> bool {
    &&& crate::engine::ordered::directory_lists(
        cells.directory,
        entries_since(snapshot.directory, base.directory),
    )
    &&& cells_list(cells.ledger, cells_since(snapshot.ledger, base.ledger))
}

/// A Ledger with cells laid over it: a record replaces, a delete removes.
pub open spec fn overlaid(
    ledger: Map<u64, RecordModel>,
    cells: Map<u64, Option<RecordModel>>,
) -> Map<u64, RecordModel> {
    Map::new(
        |uid: u64|
            if cells.dom().contains(uid) {
                cells[uid] is Some
            } else {
                ledger.dom().contains(uid)
            },
        |uid: u64|
            if cells.dom().contains(uid) {
                cells[uid]->0
            } else {
                ledger[uid]
            },
    )
}

/// Laying a snapshot's delta over its base gives the snapshot, where no path of the
/// base has left the snapshot.
pub proof fn law_delta_over_base_is_the_snapshot(base: ForestModel, snapshot: ForestModel)
    requires
        base.directory.dom().subset_of(snapshot.directory.dom()),
    ensures
        base.directory.union_prefer_right(entries_since(snapshot.directory, base.directory))
            == snapshot.directory,
        overlaid(base.ledger, cells_since(snapshot.ledger, base.ledger)) == snapshot.ledger,
{
    let rows = entries_since(snapshot.directory, base.directory);
    assert forall|path: Seq<u8>|
        base.directory.dom().contains(path) implies snapshot.directory.dom().contains(path) by {}
    assert(base.directory.union_prefer_right(rows) =~= snapshot.directory);
    let cells = cells_since(snapshot.ledger, base.ledger);
    assert forall|uid: u64|
        overlaid(base.ledger, cells).dom().contains(uid) == snapshot.ledger.dom().contains(uid)
            && (snapshot.ledger.dom().contains(uid) ==> overlaid(base.ledger, cells)[uid]
            == snapshot.ledger[uid]) by {
        assert(cell_of(snapshot.ledger, uid) == cell_of(base.ledger, uid)
            || cells.dom().contains(uid));
    }
    assert(overlaid(base.ledger, cells) =~= snapshot.ledger);
}

/// A forest has no delta to itself.
pub proof fn law_delta_to_itself_is_empty(cells: CellsModel, forest: ForestModel)
    requires
        is_delta(cells, forest, forest),
    ensures
        cells.directory.len() == 0,
        cells.ledger.len() == 0,
{
    if cells.directory.len() > 0 {
        assert(entries_since(forest.directory, forest.directory).dom().contains(
            cells.directory[0].0,
        ));
    }
    if cells.ledger.len() > 0 {
        assert(cells_since(forest.ledger, forest.ledger).dom().contains(cells.ledger[0].0.value));
    }
}

/// A delta is determined by the two forests.
pub proof fn lemma_delta_unique(
    left: CellsModel,
    right: CellsModel,
    snapshot: ForestModel,
    base: ForestModel,
)
    requires
        is_delta(left, snapshot, base),
        is_delta(right, snapshot, base),
    ensures
        left == right,
{
    crate::engine::ordered::lemma_directory_lists_unique(
        left.directory,
        right.directory,
        entries_since(snapshot.directory, base.directory),
    );
    lemma_cells_list_unique(
        left.ledger,
        right.ledger,
        cells_since(snapshot.ledger, base.ledger),
    );
}

proof fn lemma_cells_list_unique(
    left: Seq<(StreamUid, Option<RecordModel>)>,
    right: Seq<(StreamUid, Option<RecordModel>)>,
    cells: Map<u64, Option<RecordModel>>,
)
    requires
        cells_list(left, cells),
        cells_list(right, cells),
    ensures
        left == right,
    decreases left.len() + right.len(),
{
    if left.len() == 0 || right.len() == 0 {
        if left.len() > 0 {
            assert(cells.dom().contains(left[0].0.value));
        }
        if right.len() > 0 {
            assert(cells.dom().contains(right[0].0.value));
        }
        assert(left =~= right);
    } else {
        let l = left.len() - 1;
        let r = right.len() - 1;
        assert(cells.dom().contains(left[l].0.value));
        assert(cells.dom().contains(right[r].0.value));
        let i = choose|i: int| 0 <= i < right.len() && (#[trigger] right[i]).0.value
            == left[l].0.value;
        let j = choose|j: int| 0 <= j < left.len() && (#[trigger] left[j]).0.value
            == right[r].0.value;
        assert(left[l].0.value == right[r].0.value) by {
            if i < r {
                assert(right[i].0.value < right[r].0.value);
            }
            if j < l {
                assert(left[j].0.value < left[l].0.value);
            }
        }
        lemma_cells_list_drop(left, cells);
        lemma_cells_list_drop(right, cells);
        lemma_cells_list_unique(
            left.drop_last(),
            right.drop_last(),
            cells.remove(left.last().0.value),
        );
        assert(left =~= left.drop_last().push(left.last()));
        assert(right =~= right.drop_last().push(right.last()));
    }
}

proof fn lemma_cells_list_drop(
    rows: Seq<(StreamUid, Option<RecordModel>)>,
    cells: Map<u64, Option<RecordModel>>,
)
    requires
        cells_list(rows, cells),
        rows.len() > 0,
    ensures
        cells_list(rows.drop_last(), cells.remove(rows.last().0.value)),
{
    let last = rows.len() - 1;
    let shorter = rows.drop_last();
    let rest = cells.remove(rows.last().0.value);
    assert forall|i: int| #![trigger shorter[i]] 0 <= i < shorter.len() implies rest.dom().contains(
        shorter[i].0.value,
    ) && rest[shorter[i].0.value] == shorter[i].1 by {
        assert(shorter[i] == rows[i]);
        assert(rows[i].0.value < rows[last].0.value);
    }
    assert forall|uid: u64| #[trigger] rest.dom().contains(uid) implies exists|i: int|
        0 <= i < shorter.len() && (#[trigger] shorter[i]).0.value == uid by {
        assert(cells.dom().contains(uid));
        let i = choose|i: int| 0 <= i < rows.len() && (#[trigger] rows[i]).0.value == uid;
        assert(shorter[i] == rows[i]);
    }
}

fn directory_since(snapshot: &Forest, base: &Forest) -> (rows: Vec<(DirectoryKey, DirectoryEntry)>)
    ensures
        crate::engine::ordered::directory_lists(
            crate::domain::sst_directory::directory_rows(rows@),
            entries_since(snapshot@.directory, base@.directory),
        ),
{
    let ghost held = snapshot@.directory;
    let ghost expected = entries_since(held, base@.directory);
    let listed = snapshot.directory.list();
    let ghost said = crate::engine::ordered::listed_directory(listed@);
    let mut rows: Vec<(DirectoryKey, DirectoryEntry)> = Vec::new();
    let mut at: usize = 0;
    while at < listed.len()
        invariant
            at <= listed.len(),
            held == snapshot@.directory,
            said == crate::engine::ordered::listed_directory(listed@),
            crate::engine::ordered::directory_lists(said, held),
            expected == entries_since(held, base@.directory),
            forall|i: int|
                #![trigger rows@[i]]
                0 <= i < rows@.len() ==> expected.dom().contains(rows@[i].0@)
                    && expected[rows@[i].0@] == rows@[i].1 && exists|k: int|
                    0 <= k < at && (#[trigger] said[k]).0 == rows@[i].0@,
            forall|i: int, j: int|
                0 <= i < j < rows@.len() ==> crate::domain::text::bytes_less(
                    (#[trigger] rows@[i]).0@,
                    (#[trigger] rows@[j]).0@,
                ),
            forall|k: int|
                #![trigger said[k]]
                0 <= k < at && expected.dom().contains(said[k].0) ==> exists|i: int|
                    0 <= i < rows@.len() && (#[trigger] rows@[i]).0@ == said[k].0,
        decreases listed.len() - at,
    {
        let path: &[u8] = listed[at].0;
        let entry = listed[at].1;
        assert(said[at as int] == (path@, entry));
        let changed = match base.directory.get(path) {
            Some(held_entry) => held_entry != entry,
            None => true,
        };
        let ghost before = rows@;
        if changed {
            assert(expected.dom().contains(path@));
            rows.push((DirectoryKey { bytes: copy_bytes(path) }, entry));
            proof {
                assert forall|i: int, j: int|
                    0 <= i < j < rows@.len() implies crate::domain::text::bytes_less(
                    (#[trigger] rows@[i]).0@,
                    (#[trigger] rows@[j]).0@,
                ) by {
                    assert(rows@[i] == before[i]);
                    if j < before.len() {
                        assert(rows@[j] == before[j]);
                    } else {
                        let k = choose|k: int| 0 <= k < at && (#[trigger] said[k]).0 == before[i].0@;
                        assert(crate::domain::text::bytes_less(said[k].0, said[at as int].0));
                    }
                }
                assert forall|i: int|
                    #![trigger rows@[i]]
                    0 <= i < rows@.len() implies expected.dom().contains(rows@[i].0@)
                    && expected[rows@[i].0@] == rows@[i].1 && exists|k: int|
                    0 <= k < at + 1 && (#[trigger] said[k]).0 == rows@[i].0@ by {
                    if i < before.len() {
                        assert(rows@[i] == before[i]);
                        let k = choose|k: int| 0 <= k < at && (#[trigger] said[k]).0 == before[i].0@;
                        assert(said[k].0 == rows@[i].0@);
                    } else {
                        assert(said[at as int].0 == rows@[i].0@);
                    }
                }
                assert forall|k: int|
                    #![trigger said[k]]
                    0 <= k < at + 1 && expected.dom().contains(said[k].0) implies exists|i: int|
                    0 <= i < rows@.len() && (#[trigger] rows@[i]).0@ == said[k].0 by {
                    if k < at {
                        let i = choose|i: int|
                            0 <= i < before.len() && (#[trigger] before[i]).0@ == said[k].0;
                        assert(rows@[i] == before[i]);
                    } else {
                        assert(rows@[before.len() as int].0@ == said[k].0);
                    }
                }
            }
        } else {
            assert(!expected.dom().contains(path@));
        }
        at += 1;
    }
    proof {
        let listing = crate::domain::sst_directory::directory_rows(rows@);
        assert forall|i: int, j: int|
            0 <= i < j < listing.len() implies crate::domain::text::bytes_less(
            (#[trigger] listing[i]).0,
            (#[trigger] listing[j]).0,
        ) by {
            assert(listing[i].0 == rows@[i].0@ && listing[j].0 == rows@[j].0@);
        }
        assert forall|i: int| #![trigger listing[i]] 0 <= i < listing.len() implies
            expected.dom().contains(listing[i].0) && expected[listing[i].0] == listing[i].1 by {
            assert(listing[i] == (rows@[i].0@, rows@[i].1));
        }
        assert forall|path: Seq<u8>| #[trigger] expected.dom().contains(path) implies exists|i: int|
            0 <= i < listing.len() && (#[trigger] listing[i]).0 == path by {
            assert(held.dom().contains(path));
            let k = choose|k: int| 0 <= k < said.len() && (#[trigger] said[k]).0 == path;
            let i = choose|i: int| 0 <= i < rows@.len() && (#[trigger] rows@[i]).0@ == said[k].0;
            assert(listing[i].0 == path);
        }
    }
    rows
}

/// Where the walk through both Ledgers stands: what is behind is listed, and lies
/// below all that is ahead.
spec fn walked(
    rows: Seq<(StreamUid, LedgerCell)>,
    newer: Seq<(u64, RecordModel)>,
    older: Seq<(u64, RecordModel)>,
    i: int,
    j: int,
    expected: Map<u64, Option<RecordModel>>,
) -> bool {
    &&& forall|r: int|
        #![trigger rows[r]]
        0 <= r < rows.len() ==> expected.dom().contains(rows[r].0.value)
            && expected[rows[r].0.value] == rows[r].1@
    &&& forall|r: int, q: int|
        0 <= r < q < rows.len() ==> (#[trigger] rows[r]).0.value < (#[trigger] rows[q]).0.value
    &&& forall|r: int, k: int|
        #![trigger rows[r], newer[k]]
        0 <= r < rows.len() && i <= k < newer.len() ==> rows[r].0.value < newer[k].0
    &&& forall|r: int, k: int|
        #![trigger rows[r], older[k]]
        0 <= r < rows.len() && j <= k < older.len() ==> rows[r].0.value < older[k].0
    &&& forall|k: int, l: int|
        #![trigger newer[k], older[l]]
        0 <= k < i && j <= l < older.len() ==> newer[k].0 < older[l].0
    &&& forall|k: int, l: int|
        #![trigger newer[k], older[l]]
        i <= k < newer.len() && 0 <= l < j ==> older[l].0 < newer[k].0
    &&& forall|k: int|
        #![trigger newer[k]]
        0 <= k < i && expected.dom().contains(newer[k].0) ==> exists|r: int|
            0 <= r < rows.len() && (#[trigger] rows[r]).0.value == newer[k].0
    &&& forall|l: int|
        #![trigger older[l]]
        0 <= l < j && expected.dom().contains(older[l].0) ==> exists|r: int|
            0 <= r < rows.len() && (#[trigger] rows[r]).0.value == older[l].0
}

/// One more listed row keeps the walk in order.
proof fn lemma_walk_lists(
    before: Seq<(StreamUid, LedgerCell)>,
    rows: Seq<(StreamUid, LedgerCell)>,
    newer: Seq<(u64, RecordModel)>,
    older: Seq<(u64, RecordModel)>,
    i: int,
    j: int,
    next_i: int,
    next_j: int,
    expected: Map<u64, Option<RecordModel>>,
)
    requires
        walked(before, newer, older, i, j, expected),
        0 <= i <= next_i <= newer.len(),
        0 <= j <= next_j <= older.len(),
        next_i <= i + 1,
        next_j <= j + 1,
        forall|k: int, l: int|
            0 <= k < l < newer.len() ==> (#[trigger] newer[k]).0 < (#[trigger] newer[l]).0,
        forall|k: int, l: int|
            0 <= k < l < older.len() ==> (#[trigger] older[k]).0 < (#[trigger] older[l]).0,
        next_i > i && next_j > j ==> newer[i].0 == older[j].0,
        next_i > i && next_j == j ==> j < older.len() ==> newer[i].0 < older[j].0,
        next_j > j && next_i == i ==> i < newer.len() ==> older[j].0 < newer[i].0,
        next_i > i || next_j > j,
        ({
            let uid = if next_i > i {
                newer[i].0
            } else {
                older[j].0
            };
            if rows.len() > before.len() {
                &&& rows.len() == before.len() + 1
                &&& rows.drop_last() == before
                &&& rows.last().0.value == uid
                &&& expected.dom().contains(uid)
                &&& expected[uid] == rows.last().1@
            } else {
                rows == before && !expected.dom().contains(uid)
            }
        }),
    ensures
        walked(rows, newer, older, next_i, next_j, expected),
{
    let uid = if next_i > i {
        newer[i].0
    } else {
        older[j].0
    };
    assert forall|r: int| 0 <= r < before.len() implies before[r] == #[trigger] rows[r] by {
        if rows.len() > before.len() {
            assert(rows.drop_last()[r] == rows[r]);
        }
    }
    assert forall|r: int, q: int| 0 <= r < q < rows.len() implies (#[trigger] rows[r]).0.value < (
    #[trigger] rows[q]).0.value by {
        assert(before[r] == rows[r]);
        if q < before.len() {
            assert(before[q] == rows[q]);
        } else {
            if next_i > i {
                assert(before[r].0.value < newer[i].0);
            } else {
                assert(before[r].0.value < older[j].0);
            }
        }
    }
    assert forall|r: int, k: int|
        #![trigger rows[r], newer[k]]
        0 <= r < rows.len() && next_i <= k < newer.len() implies rows[r].0.value < newer[k].0 by {
        if r < before.len() {
            assert(before[r] == rows[r]);
            assert(before[r].0.value < newer[k].0);
        } else if next_i > i {
            assert(newer[i].0 < newer[k].0);
        } else {
            assert(older[j].0 < newer[i].0);
            if k > i {
                assert(newer[i].0 < newer[k].0);
            }
        }
    }
    assert forall|r: int, k: int|
        #![trigger rows[r], older[k]]
        0 <= r < rows.len() && next_j <= k < older.len() implies rows[r].0.value < older[k].0 by {
        if r < before.len() {
            assert(before[r] == rows[r]);
            assert(before[r].0.value < older[k].0);
        } else if next_j > j {
            assert(older[j].0 < older[k].0);
        } else {
            assert(newer[i].0 < older[j].0);
            if k > j {
                assert(older[j].0 < older[k].0);
            }
        }
    }
    assert forall|k: int, l: int|
        #![trigger newer[k], older[l]]
        0 <= k < next_i && next_j <= l < older.len() implies newer[k].0 < older[l].0 by {
        if k == i {
            if next_j > j {
                assert(older[j].0 < older[l].0);
            } else {
                assert(newer[i].0 < older[j].0);
                if l > j {
                    assert(older[j].0 < older[l].0);
                }
            }
        }
    }
    assert forall|k: int, l: int|
        #![trigger newer[k], older[l]]
        next_i <= k < newer.len() && 0 <= l < next_j implies older[l].0 < newer[k].0 by {
        if l == j {
            if next_i > i {
                assert(newer[i].0 < newer[k].0);
            } else {
                assert(older[j].0 < newer[i].0);
                if k > i {
                    assert(newer[i].0 < newer[k].0);
                }
            }
        }
    }
    assert forall|k: int|
        #![trigger newer[k]]
        0 <= k < next_i && expected.dom().contains(newer[k].0) implies exists|r: int|
        0 <= r < rows.len() && (#[trigger] rows[r]).0.value == newer[k].0 by {
        if k < i {
            let r = choose|r: int|
                0 <= r < before.len() && (#[trigger] before[r]).0.value == newer[k].0;
            assert(before[r] == rows[r]);
        } else {
            assert(rows[before.len() as int].0.value == newer[k].0);
        }
    }
    assert forall|l: int|
        #![trigger older[l]]
        0 <= l < next_j && expected.dom().contains(older[l].0) implies exists|r: int|
        0 <= r < rows.len() && (#[trigger] rows[r]).0.value == older[l].0 by {
        if l < j {
            let r = choose|r: int|
                0 <= r < before.len() && (#[trigger] before[r]).0.value == older[l].0;
            assert(before[r] == rows[r]);
        } else {
            assert(rows[before.len() as int].0.value == older[l].0);
        }
    }
}

fn ledger_since(snapshot: &Forest, base: &Forest) -> (rows: Vec<(StreamUid, LedgerCell)>)
    ensures
        cells_list(
            crate::domain::sst_ledger::ledger_rows(rows@),
            cells_since(snapshot@.ledger, base@.ledger),
        ),
{
    let newer: Vec<(u64, &StreamRecord)> = snapshot.ledger.list();
    let older: Vec<(u64, &StreamRecord)> = base.ledger.list();
    let ghost said = crate::engine::ordered::listed_ledger(newer@);
    let ghost had = crate::engine::ordered::listed_ledger(older@);
    let ghost expected = cells_since(snapshot@.ledger, base@.ledger);
    let mut rows: Vec<(StreamUid, LedgerCell)> = Vec::new();
    let mut i: usize = 0;
    let mut j: usize = 0;
    while i < newer.len() || j < older.len()
        invariant
            i <= newer.len(),
            j <= older.len(),
            said == crate::engine::ordered::listed_ledger(newer@),
            had == crate::engine::ordered::listed_ledger(older@),
            crate::engine::ordered::ledger_lists(said, snapshot@.ledger),
            crate::engine::ordered::ledger_lists(had, base@.ledger),
            expected == cells_since(snapshot@.ledger, base@.ledger),
            walked(rows@, said, had, i as int, j as int, expected),
        decreases newer.len() - i + (older.len() - j),
    {
        let ghost before = rows@;
        let ghost at_i = i as int;
        let ghost at_j = j as int;
        let takes_newer = i < newer.len() && (j >= older.len() || newer[i].0 <= older[j].0);
        let takes_older = j < older.len() && (i >= newer.len() || older[j].0 <= newer[i].0);
        if takes_newer {
            assert(said[at_i] == (newer@[at_i].0, newer@[at_i].1@));
            let uid: u64 = newer[i].0;
            let record: &StreamRecord = newer[i].1;
            let mut same = false;
            if takes_older {
                assert(had[at_j] == (older@[at_j].0, older@[at_j].1@));
                same = record.is_same(older[j].1);
                j += 1;
            } else {
                assert(!base@.ledger.dom().contains(uid)) by {
                    if base@.ledger.dom().contains(uid) {
                        let l = choose|l: int| 0 <= l < had.len() && (#[trigger] had[l]).0 == uid;
                        assert(said[at_i].0 == uid);
                        if l >= at_j {
                            assert(had[at_j] == (older@[at_j].0, older@[at_j].1@));
                            if l > at_j {
                                assert(had[at_j].0 < had[l].0);
                            }
                        }
                    }
                }
            }
            if !same {
                rows.push((StreamUid { value: uid }, LedgerCell::Value(record.clone())));
                assert(rows@.drop_last() =~= before);
            }
            i += 1;
        } else {
            assert(had[at_j] == (older@[at_j].0, older@[at_j].1@));
            let uid: u64 = older[j].0;
            assert(!snapshot@.ledger.dom().contains(uid)) by {
                if snapshot@.ledger.dom().contains(uid) {
                    let k = choose|k: int| 0 <= k < said.len() && (#[trigger] said[k]).0 == uid;
                    assert(had[at_j].0 == uid);
                    if k >= at_i {
                        assert(said[at_i] == (newer@[at_i].0, newer@[at_i].1@));
                        if k > at_i {
                            assert(said[at_i].0 < said[k].0);
                        }
                    }
                }
            }
            rows.push((StreamUid { value: uid }, LedgerCell::Delete));
            assert(rows@.drop_last() =~= before);
            j += 1;
        }
        proof {
            if at_i < said.len() {
                assert(said[at_i] == (newer@[at_i].0, newer@[at_i].1@));
            }
            if at_j < had.len() {
                assert(had[at_j] == (older@[at_j].0, older@[at_j].1@));
            }
            lemma_walk_lists(before, rows@, said, had, at_i, at_j, i as int, j as int, expected);
        }
    }
    proof {
        let listing = crate::domain::sst_ledger::ledger_rows(rows@);
        assert forall|r: int, q: int| 0 <= r < q < listing.len() implies (
        #[trigger] listing[r]).0.value < (#[trigger] listing[q]).0.value by {
            assert(listing[r].0 == rows@[r].0 && listing[q].0 == rows@[q].0);
        }
        assert forall|r: int| #![trigger listing[r]] 0 <= r < listing.len() implies
            expected.dom().contains(listing[r].0.value) && expected[listing[r].0.value]
            == listing[r].1 by {
            assert(listing[r] == (rows@[r].0, rows@[r].1@));
        }
        assert forall|uid: u64| #[trigger] expected.dom().contains(uid) implies exists|r: int|
            0 <= r < listing.len() && (#[trigger] listing[r]).0.value == uid by {
            if snapshot@.ledger.dom().contains(uid) {
                let k = choose|k: int| 0 <= k < said.len() && (#[trigger] said[k]).0 == uid;
                let r = choose|r: int|
                    0 <= r < rows@.len() && (#[trigger] rows@[r]).0.value == said[k].0;
                assert(listing[r].0.value == uid);
            } else {
                assert(base@.ledger.dom().contains(uid));
                let l = choose|l: int| 0 <= l < had.len() && (#[trigger] had[l]).0 == uid;
                let r = choose|r: int|
                    0 <= r < rows@.len() && (#[trigger] rows@[r]).0.value == had[l].0;
                assert(listing[r].0.value == uid);
            }
        }
    }
    rows
}

impl Forest {
    /// The rows of this forest that differ from `base`.
    pub fn delta_since(&self, base: &Forest) -> (delta: ForestDelta)
        ensures
            is_delta(delta@, self@, base@),
    {
        ForestDelta { directory: directory_since(self, base), ledger: ledger_since(self, base) }
    }

    /// Every row of this forest, as a checkpoint that rewrites all of it stores them.
    pub fn checkpoint_cells(&self) -> (cells: ForestDelta)
        ensures
            is_delta(cells@, self@, ForestModel::empty()),
    {
        self.delta_since(&Forest::empty())
    }
}

} // verus!
