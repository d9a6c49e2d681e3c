//! Persistent ordered maps of Directory and Ledger rows.
//!
//! The maps are `imbl::OrdMap`s: cloning one shares its nodes, so a snapshot of the
//! resident state costs nothing until one side changes.

use vstd::prelude::*;

use crate::domain::directory::DirectoryEntry;
use crate::domain::ledger::{RecordModel, StreamRecord};

verus! {

/// Directory rows by path, in byte order.
#[verifier::external_body]
#[derive(Debug, PartialEq, Eq)]
pub struct DirectoryRows {
    rows: imbl::OrdMap<Vec<u8>, DirectoryEntry>,
}

/// What Directory rows hold.
pub uninterp spec fn directory_contents(rows: DirectoryRows) -> Map<Seq<u8>, DirectoryEntry>;

impl View for DirectoryRows {
    type V = Map<Seq<u8>, DirectoryEntry>;

    open spec fn view(&self) -> Map<Seq<u8>, DirectoryEntry> {
        directory_contents(*self)
    }
}

/// `rows` lists what `contents` holds, each path once, in byte order.
pub open spec fn directory_lists(
    rows: Seq<(Seq<u8>, DirectoryEntry)>,
    contents: Map<Seq<u8>, DirectoryEntry>,
) -> bool {
    &&& crate::domain::sst_directory::directory_ordered(rows)
    &&& forall|i: int|
        #![trigger rows[i]]
        0 <= i < rows.len() ==> contents.dom().contains(rows[i].0) && contents[rows[i].0]
            == rows[i].1
    &&& forall|path: Seq<u8>| #[trigger]
        contents.dom().contains(path) ==> exists|i: int|
            0 <= i < rows.len() && (#[trigger] rows[i]).0 == path
}

/// What borrowed Directory rows say.
pub open spec fn listed_directory(rows: Seq<(&[u8], DirectoryEntry)>) -> Seq<
    (Seq<u8>, DirectoryEntry),
> {
    rows.map(|_i: int, row: (&[u8], DirectoryEntry)| (row.0@, row.1))
}

impl DirectoryRows {
    /// `imbl::OrdMap::new`: no rows.
    #[verifier::external_body]
    pub(crate) fn new() -> (rows: Self)
        ensures
            directory_contents(rows).dom() == Set::<Seq<u8>>::empty(),
    {
        DirectoryRows { rows: imbl::OrdMap::new() }
    }

    /// `imbl::OrdMap::len`: how many rows there are.
    #[verifier::external_body]
    pub(crate) fn len(&self) -> (count: usize)
        ensures
            count == directory_contents(*self).dom().len(),
    {
        self.rows.len()
    }

    /// `imbl::OrdMap::get`: the row of a path, if there is one.
    #[verifier::external_body]
    pub(crate) fn get(&self, path: &[u8]) -> (entry: Option<DirectoryEntry>)
        ensures
            match entry {
                Some(entry) => directory_contents(*self).dom().contains(path@)
                    && directory_contents(*self)[path@] == entry,
                None => !directory_contents(*self).dom().contains(path@),
            },
    {
        self.rows.get(path).copied()
    }

    /// `imbl::OrdMap::insert`: puts a row in place of what its path held.
    #[verifier::external_body]
    pub(crate) fn insert(&mut self, path: Vec<u8>, entry: DirectoryEntry)
        ensures
            directory_contents(*final(self)) == directory_contents(*old(self)).insert(path@, entry),
    {
        self.rows.insert(path, entry);
    }

    /// `imbl::OrdMap::iter`: every row, from the lowest path to the highest.
    #[verifier::external_body]
    pub(crate) fn list<'a>(&'a self) -> (rows: Vec<(&'a [u8], DirectoryEntry)>)
        ensures
            directory_lists(listed_directory(rows@), directory_contents(*self)),
    {
        self.rows.iter().map(|(path, entry)| (path.as_slice(), *entry)).collect()
    }
}

impl Clone for DirectoryRows {
    /// `imbl::OrdMap::clone`: the same rows.
    #[verifier::external_body]
    fn clone(&self) -> (copy: Self)
        ensures
            directory_contents(copy) == directory_contents(*self),
    {
        DirectoryRows { rows: self.rows.clone() }
    }
}

/// Ledger rows by stream, in numeric order.
#[verifier::external_body]
#[derive(Debug, PartialEq, Eq)]
pub struct LedgerRows {
    rows: imbl::OrdMap<u64, StreamRecord>,
}

/// What Ledger rows hold.
pub uninterp spec fn ledger_contents(rows: LedgerRows) -> Map<u64, RecordModel>;

impl View for LedgerRows {
    type V = Map<u64, RecordModel>;

    open spec fn view(&self) -> Map<u64, RecordModel> {
        ledger_contents(*self)
    }
}

/// `rows` lists what `contents` holds, each stream once, in numeric order.
pub open spec fn ledger_lists(
    rows: Seq<(u64, RecordModel)>,
    contents: Map<u64, RecordModel>,
) -> bool {
    &&& forall|i: int, j: int|
        0 <= i < j < rows.len() ==> (#[trigger] rows[i]).0 < (#[trigger] rows[j]).0
    &&& forall|i: int|
        #![trigger rows[i]]
        0 <= i < rows.len() ==> contents.dom().contains(rows[i].0) && contents[rows[i].0]
            == rows[i].1
    &&& forall|uid: u64| #[trigger]
        contents.dom().contains(uid) ==> exists|i: int|
            0 <= i < rows.len() && (#[trigger] rows[i]).0 == uid
}

/// What borrowed Ledger rows say.
pub open spec fn listed_ledger(rows: Seq<(u64, &StreamRecord)>) -> Seq<(u64, RecordModel)> {
    rows.map(|_i: int, row: (u64, &StreamRecord)| (row.0, row.1@))
}

impl LedgerRows {
    /// `imbl::OrdMap::new`: no rows.
    #[verifier::external_body]
    pub(crate) fn new() -> (rows: Self)
        ensures
            ledger_contents(rows).dom() == Set::<u64>::empty(),
    {
        LedgerRows { rows: imbl::OrdMap::new() }
    }

    /// `imbl::OrdMap::get`: the record of a stream, if there is one.
    #[verifier::external_body]
    pub(crate) fn get(&self, uid: u64) -> (record: Option<&StreamRecord>)
        ensures
            match record {
                Some(record) => ledger_contents(*self).dom().contains(uid) && ledger_contents(
                    *self,
                )[uid] == record@,
                None => !ledger_contents(*self).dom().contains(uid),
            },
    {
        self.rows.get(&uid)
    }

    /// `imbl::OrdMap::insert`: puts a record in place of what its stream held.
    #[verifier::external_body]
    pub(crate) fn insert(&mut self, uid: u64, record: StreamRecord)
        ensures
            ledger_contents(*final(self)) == ledger_contents(*old(self)).insert(uid, record@),
    {
        self.rows.insert(uid, record);
    }

    /// `imbl::OrdMap::remove`: takes the record of a stream away, if there is one.
    #[verifier::external_body]
    pub(crate) fn remove(&mut self, uid: u64)
        ensures
            ledger_contents(*final(self)) == ledger_contents(*old(self)).remove(uid),
    {
        self.rows.remove(&uid);
    }

    /// `imbl::OrdMap::iter`: every row, from the lowest stream to the highest.
    #[verifier::external_body]
    pub(crate) fn list<'a>(&'a self) -> (rows: Vec<(u64, &'a StreamRecord)>)
        ensures
            ledger_lists(listed_ledger(rows@), ledger_contents(*self)),
    {
        self.rows.iter().map(|(uid, record)| (*uid, record)).collect()
    }
}

impl Clone for LedgerRows {
    /// `imbl::OrdMap::clone`: the same rows.
    #[verifier::external_body]
    fn clone(&self) -> (copy: Self)
        ensures
            ledger_contents(copy) == ledger_contents(*self),
    {
        LedgerRows { rows: self.rows.clone() }
    }
}

/// A Directory listing has as many rows as the map has paths.
pub proof fn lemma_directory_lists_len(
    rows: Seq<(Seq<u8>, DirectoryEntry)>,
    contents: Map<Seq<u8>, DirectoryEntry>,
)
    requires
        directory_lists(rows, contents),
    ensures
        contents.dom().finite(),
        rows.len() == contents.dom().len(),
{
    let paths = rows.map(|_i: int, row: (Seq<u8>, DirectoryEntry)| row.0);
    assert forall|i: int, j: int|
        0 <= i < paths.len() && 0 <= j < paths.len() && i != j implies paths[i] != paths[j] by {
        if i < j {
            assert(rows[i].0 == paths[i] && rows[j].0 == paths[j]);
            crate::domain::text::lemma_bytes_less_asymmetric(paths[i], paths[j]);
        } else {
            assert(rows[i].0 == paths[i] && rows[j].0 == paths[j]);
            crate::domain::text::lemma_bytes_less_asymmetric(paths[j], paths[i]);
        }
    }
    assert(paths.no_duplicates());
    paths.unique_seq_to_set();
    assert forall|path: Seq<u8>| paths.to_set().contains(path) == contents.dom().contains(path) by {
        if contents.dom().contains(path) {
            let i = choose|i: int| 0 <= i < rows.len() && (#[trigger] rows[i]).0 == path;
            assert(paths[i] == path);
        }
        if paths.to_set().contains(path) {
            let i = choose|i: int| 0 <= i < paths.len() && paths[i] == path;
            assert(rows[i].0 == path);
        }
    }
    assert(paths.to_set() =~= contents.dom());
}

/// A map has only one Directory listing.
pub proof fn lemma_directory_lists_unique(
    left: Seq<(Seq<u8>, DirectoryEntry)>,
    right: Seq<(Seq<u8>, DirectoryEntry)>,
    contents: Map<Seq<u8>, DirectoryEntry>,
)
    requires
        directory_lists(left, contents),
        directory_lists(right, contents),
    ensures
        left == right,
    decreases left.len(),
{
    lemma_directory_lists_len(left, contents);
    lemma_directory_lists_len(right, contents);
    if left.len() > 0 {
        let last = left.len() - 1;
        lemma_directory_last(left, right, contents);
        lemma_directory_last(right, left, contents);
        if left[last].0 != right[last].0 {
            assert(crate::domain::text::bytes_less(left[last].0, right[last].0));
            assert(crate::domain::text::bytes_less(right[last].0, left[last].0));
            crate::domain::text::lemma_bytes_less_asymmetric(left[last].0, right[last].0);
        }
        let shorter = contents.remove(left[last].0);
        lemma_directory_lists_drop(left, contents);
        lemma_directory_lists_drop(right, contents);
        lemma_directory_lists_unique(left.drop_last(), right.drop_last(), shorter);
        assert(left =~= left.drop_last().push(left.last()));
        assert(right =~= right.drop_last().push(right.last()));
    } else {
        assert(left =~= right);
    }
}

proof fn lemma_directory_last(
    left: Seq<(Seq<u8>, DirectoryEntry)>,
    right: Seq<(Seq<u8>, DirectoryEntry)>,
    contents: Map<Seq<u8>, DirectoryEntry>,
)
    requires
        directory_lists(left, contents),
        directory_lists(right, contents),
        left.len() == right.len(),
        left.len() > 0,
    ensures
        left.last().0 == right.last().0 || crate::domain::text::bytes_less(
            left.last().0,
            right.last().0,
        ),
{
    let last = left.len() - 1;
    assert(contents.dom().contains(left[last].0));
    let i = choose|i: int| 0 <= i < right.len() && (#[trigger] right[i]).0 == left[last].0;
    if i < last {
        assert(crate::domain::text::bytes_less(right[i].0, right[last].0));
    }
}

proof fn lemma_directory_lists_drop(
    rows: Seq<(Seq<u8>, DirectoryEntry)>,
    contents: Map<Seq<u8>, DirectoryEntry>,
)
    requires
        directory_lists(rows, contents),
        rows.len() > 0,
    ensures
        directory_lists(rows.drop_last(), contents.remove(rows.last().0)),
{
    let last = rows.len() - 1;
    let shorter = rows.drop_last();
    let rest = contents.remove(rows.last().0);
    assert forall|i: int, j: int| 0 <= i < j < shorter.len() implies crate::domain::text::bytes_less(
        (#[trigger] shorter[i]).0,
        (#[trigger] shorter[j]).0,
    ) by {
        assert(shorter[i] == rows[i] && shorter[j] == rows[j]);
    }
    assert forall|i: int| #![trigger shorter[i]] 0 <= i < shorter.len() implies rest.dom().contains(
        shorter[i].0,
    ) && rest[shorter[i].0] == shorter[i].1 by {
        assert(shorter[i] == rows[i]);
        assert(crate::domain::text::bytes_less(rows[i].0, rows[last].0));
        crate::domain::text::lemma_bytes_less_asymmetric(rows[i].0, rows[last].0);
    }
    assert forall|path: Seq<u8>| #[trigger] rest.dom().contains(path) implies exists|i: int|
        0 <= i < shorter.len() && (#[trigger] shorter[i]).0 == path by {
        assert(contents.dom().contains(path));
        let i = choose|i: int| 0 <= i < rows.len() && (#[trigger] rows[i]).0 == path;
        assert(shorter[i] == rows[i]);
    }
}

/// A map has only one Ledger listing.
pub proof fn lemma_ledger_lists_unique(
    left: Seq<(u64, RecordModel)>,
    right: Seq<(u64, RecordModel)>,
    contents: Map<u64, RecordModel>,
)
    requires
        ledger_lists(left, contents),
        ledger_lists(right, contents),
    ensures
        left == right,
    decreases left.len() + right.len(),
{
    if left.len() == 0 || right.len() == 0 {
        if left.len() > 0 {
            assert(contents.dom().contains(left[0].0));
        }
        if right.len() > 0 {
            assert(contents.dom().contains(right[0].0));
        }
        assert(left =~= right);
    } else {
        let l = left.len() - 1;
        let r = right.len() - 1;
        assert(contents.dom().contains(left[l].0));
        assert(contents.dom().contains(right[r].0));
        let i = choose|i: int| 0 <= i < right.len() && (#[trigger] right[i]).0 == left[l].0;
        let j = choose|j: int| 0 <= j < left.len() && (#[trigger] left[j]).0 == right[r].0;
        assert(left[l].0 == right[r].0) by {
            if i < r {
                assert(right[i].0 < right[r].0);
            }
            if j < l {
                assert(left[j].0 < left[l].0);
            }
        }
        lemma_ledger_lists_drop(left, contents);
        lemma_ledger_lists_drop(right, contents);
        lemma_ledger_lists_unique(
            left.drop_last(),
            right.drop_last(),
            contents.remove(left.last().0),
        );
        assert(left =~= left.drop_last().push(left.last()));
        assert(right =~= right.drop_last().push(right.last()));
    }
}

proof fn lemma_ledger_lists_drop(rows: Seq<(u64, RecordModel)>, contents: Map<u64, RecordModel>)
    requires
        ledger_lists(rows, contents),
        rows.len() > 0,
    ensures
        ledger_lists(rows.drop_last(), contents.remove(rows.last().0)),
{
    let last = rows.len() - 1;
    let shorter = rows.drop_last();
    let rest = contents.remove(rows.last().0);
    assert forall|i: int| #![trigger shorter[i]] 0 <= i < shorter.len() implies rest.dom().contains(
        shorter[i].0,
    ) && rest[shorter[i].0] == shorter[i].1 by {
        assert(shorter[i] == rows[i]);
        assert(rows[i].0 < rows[last].0);
    }
    assert forall|uid: u64| #[trigger] rest.dom().contains(uid) implies exists|i: int|
        0 <= i < shorter.len() && (#[trigger] shorter[i]).0 == uid by {
        assert(contents.dom().contains(uid));
        let i = choose|i: int| 0 <= i < rows.len() && (#[trigger] rows[i]).0 == uid;
        assert(shorter[i] == rows[i]);
    }
}

/// Finitely many paths have a greatest one.
proof fn lemma_greatest_path(paths: Set<Seq<u8>>) -> (greatest: Seq<u8>)
    requires
        paths.finite(),
        paths.len() > 0,
    ensures
        paths.contains(greatest),
        forall|path: Seq<u8>| #[trigger]
            paths.contains(path) && path != greatest ==> crate::domain::text::bytes_less(
                path,
                greatest,
            ),
    decreases paths.len(),
{
    let one = paths.choose();
    let rest = paths.remove(one);
    if rest.len() == 0 {
        assert forall|path: Seq<u8>| #[trigger] paths.contains(path) implies path == one by {
            if path != one {
                assert(rest.contains(path));
                assert(false) by {
                    rest.lemma_len0_is_empty();
                }
            }
        }
        one
    } else {
        let other = lemma_greatest_path(rest);
        crate::domain::text::lemma_bytes_less_total(one, other);
        let greatest = if crate::domain::text::bytes_less(other, one) {
            one
        } else {
            other
        };
        assert forall|path: Seq<u8>| #[trigger]
            paths.contains(path) && path != greatest implies crate::domain::text::bytes_less(
            path,
            greatest,
        ) by {
            if path != one {
                assert(rest.contains(path));
                if path != other && greatest == one {
                    crate::domain::text::lemma_bytes_less_transitive(path, other, one);
                }
            }
        }
        greatest
    }
}

/// Every finite Directory map has a listing.
pub proof fn lemma_directory_has_listing(contents: Map<Seq<u8>, DirectoryEntry>) -> (rows: Seq<
    (Seq<u8>, DirectoryEntry),
>)
    requires
        contents.dom().finite(),
    ensures
        directory_lists(rows, contents),
    decreases contents.dom().len(),
{
    if contents.dom().len() == 0 {
        let rows = Seq::<(Seq<u8>, DirectoryEntry)>::empty();
        assert forall|path: Seq<u8>| #[trigger] contents.dom().contains(path) implies exists|i: int|
            0 <= i < rows.len() && (#[trigger] rows[i]).0 == path by {
            contents.dom().lemma_len0_is_empty();
        }
        rows
    } else {
        let last = lemma_greatest_path(contents.dom());
        let rest = contents.remove(last);
        let shorter = lemma_directory_has_listing(rest);
        let rows = shorter.push((last, contents[last]));
        assert forall|i: int, j: int| 0 <= i < j < rows.len() implies crate::domain::text::bytes_less(
            (#[trigger] rows[i]).0,
            (#[trigger] rows[j]).0,
        ) by {
            assert(rows[i] == shorter[i]);
            assert(rest.dom().contains(shorter[i].0));
            assert(contents.dom().contains(shorter[i].0));
            if j < shorter.len() {
                assert(rows[j] == shorter[j]);
            }
        }
        assert forall|i: int| #![trigger rows[i]] 0 <= i < rows.len() implies contents.dom().contains(
            rows[i].0,
        ) && contents[rows[i].0] == rows[i].1 by {
            if i < shorter.len() {
                assert(rows[i] == shorter[i]);
                assert(rest.dom().contains(shorter[i].0));
            }
        }
        assert forall|path: Seq<u8>| #[trigger] contents.dom().contains(path) implies exists|i: int|
            0 <= i < rows.len() && (#[trigger] rows[i]).0 == path by {
            if path == last {
                assert(rows[shorter.len() as int].0 == path);
            } else {
                assert(rest.dom().contains(path));
                let i = choose|i: int| 0 <= i < shorter.len() && (#[trigger] shorter[i]).0 == path;
                assert(rows[i].0 == path);
            }
        }
        rows
    }
}

/// Every Ledger map whose streams are below a bound has a listing.
pub proof fn lemma_ledger_has_listing(contents: Map<u64, RecordModel>, bound: nat) -> (rows: Seq<
    (u64, RecordModel),
>)
    requires
        bound <= u64::MAX + 1,
        forall|uid: u64| #[trigger] contents.dom().contains(uid) ==> uid < bound,
    ensures
        ledger_lists(rows, contents),
    decreases bound,
{
    if bound == 0 {
        Seq::empty()
    } else {
        let last = (bound - 1) as u64;
        let rest = contents.remove(last);
        let shorter = lemma_ledger_has_listing(rest, (bound - 1) as nat);
        assert forall|i: int| #![trigger shorter[i]] 0 <= i < shorter.len() implies shorter[i].0
            < last by {
            assert(rest.dom().contains(shorter[i].0));
        }
        let rows = if contents.dom().contains(last) {
            shorter.push((last, contents[last]))
        } else {
            shorter
        };
        assert forall|i: int| #![trigger rows[i]] 0 <= i < rows.len() implies contents.dom().contains(
            rows[i].0,
        ) && contents[rows[i].0] == rows[i].1 by {
            if i < shorter.len() {
                assert(rows[i] == shorter[i]);
                assert(rest.dom().contains(shorter[i].0));
            }
        }
        assert forall|uid: u64| #[trigger] contents.dom().contains(uid) implies exists|i: int|
            0 <= i < rows.len() && (#[trigger] rows[i]).0 == uid by {
            if uid == last {
                assert(rows[shorter.len() as int].0 == uid);
            } else {
                assert(rest.dom().contains(uid));
                let i = choose|i: int| 0 <= i < shorter.len() && (#[trigger] shorter[i]).0 == uid;
                assert(rows[i].0 == uid);
            }
        }
        rows
    }
}

} // verus!
