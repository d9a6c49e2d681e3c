//! Directory table archives.

use vstd::prelude::*;

use crate::domain::archive::{
    read_directory_archive, write_directory_archive, DirectoryArchive, RawDirectory,
    RawDirectoryRow,
};
use crate::domain::bounds::{
    DIRECTORY_KEY_BYTES_MAX, DIRECTORY_ROW_ENCODED_BYTES_MAX, DIRECTORY_ROW_LOGICAL_BYTES_MAX,
    PARTITION_PATH_OCCUPANCIES_MAX_V2, PARTITION_RESIDENT_LOGICAL_BYTES_MAX_V2,
    SST_ARCHIVE_FIXED_BYTES_MAX, SST_OBJECT_BYTES_MAX_USIZE,
};
use crate::domain::coordinate::StreamUid;
use crate::domain::directory::{DirectoryEntry, DirectoryKey};
use crate::domain::partition::PartitionId;
use crate::domain::protocol::{is_path_accepted, utf8_text, ProtocolField, ProtocolText};
use crate::domain::spelling::TableKey;
use crate::domain::sst::{
    check_decode_bound, check_encode_rows, decode_fresh, encode_fresh, SstDecodeError, SstEncodeError,
};
use crate::domain::table::StoreKind;
use crate::domain::text::{copy_bytes, is_bytes_less};

verus! {

/// Bytes of one archived row apart from its path: two pointer words, a variant
/// and a stream.
pub const DIRECTORY_ARCHIVED_ROW_BYTES: usize = 17;

/// What Directory rows say, in order.
pub open spec fn directory_rows(rows: Seq<(DirectoryKey, DirectoryEntry)>) -> Seq<
    (Seq<u8>, DirectoryEntry),
> {
    rows.map(|_i: int, row: (DirectoryKey, DirectoryEntry)| (row.0@, row.1))
}

/// Paths strictly ascend.
pub open spec fn directory_ordered(rows: Seq<(Seq<u8>, DirectoryEntry)>) -> bool {
    forall|i: int, j: int|
        0 <= i < j < rows.len() ==> crate::domain::text::bytes_less(
            (#[trigger] rows[i]).0,
            (#[trigger] rows[j]).0,
        )
}

pub open spec fn entry_archive(entry: DirectoryEntry) -> (u8, u64) {
    match entry {
        DirectoryEntry::Live(uid) => (0, uid.value),
        DirectoryEntry::Tombstone(uid) => (1, uid.value),
    }
}

pub open spec fn archived_entry(raw: (u8, u64)) -> DirectoryEntry {
    let uid = StreamUid { value: raw.1 };
    if raw.0 == 0 {
        DirectoryEntry::Live(uid)
    } else {
        DirectoryEntry::Tombstone(uid)
    }
}

/// Paths are archived as texts.
pub open spec fn directory_rows_archive(rows: Seq<(Seq<u8>, DirectoryEntry)>) -> Seq<
    (Seq<char>, (u8, u64)),
> {
    rows.map(
        |_i: int, row: (Seq<u8>, DirectoryEntry)|
            (vstd::utf8::decode_utf8(row.0), entry_archive(row.1)),
    )
}

pub open spec fn archived_directory_rows(raw: Seq<(Seq<char>, (u8, u64))>) -> Seq<
    (Seq<u8>, DirectoryEntry),
> {
    raw.map(
        |_i: int, row: (Seq<char>, (u8, u64))|
            (vstd::utf8::encode_utf8(row.0), archived_entry(row.1)),
    )
}

/// The plain values that a Directory table is archived as.
pub open spec fn directory_archive(
    key: TableKey,
    rows: Seq<(Seq<u8>, DirectoryEntry)>,
) -> DirectoryArchive {
    (
        key.partition.octets@,
        crate::domain::sst::fresh_archive(key.object.fresh),
        directory_rows_archive(rows),
    )
}

pub open spec fn directory_row_structured(raw: (Seq<char>, (u8, u64))) -> bool {
    raw.1.0 <= 1 && raw.1.1 != 0
}

/// Reserved zeros and unknown variants are structural faults.
pub open spec fn directory_structured(raw: DirectoryArchive) -> bool {
    &&& raw.1.0 != 0
    &&& raw.1.1 != 0
    &&& forall|i: int| 0 <= i < raw.2.len() ==> directory_row_structured(#[trigger] raw.2[i])
}

/// A stored path has an acceptable length and the grammar accepts it.
pub open spec fn stored_path_accepted(
    path: Seq<u8>,
    accepts: spec_fn(ProtocolText) -> bool,
) -> bool {
    &&& 0 < path.len() <= DIRECTORY_KEY_BYTES_MAX
    &&& crate::domain::protocol::path_accepted(path, accepts)
}

/// Rows strictly ascend and every path is acceptable.
pub open spec fn directory_rows_accepted(
    rows: Seq<(Seq<u8>, DirectoryEntry)>,
    accepts: spec_fn(ProtocolText) -> bool,
) -> bool {
    &&& directory_ordered(rows)
    &&& forall|i: int| 0 <= i < rows.len() ==> stored_path_accepted((#[trigger] rows[i]).0, accepts)
}

/// The rows that archived plain values of a Directory table at a key say.
pub open spec fn spec_decode_archived_directory(
    expected: TableKey,
    raw: DirectoryArchive,
    accepts: spec_fn(ProtocolText) -> bool,
) -> Result<Seq<(Seq<u8>, DirectoryEntry)>, SstDecodeError> {
    if !directory_structured(raw) {
        Err(SstDecodeError::MalformedArchive)
    } else if raw.0 == seq![0u8; 16] || !crate::domain::sst::archived_fresh(raw.1).wf() {
        Err(SstDecodeError::InvalidBody)
    } else if raw.0 != expected.partition.octets@ || crate::domain::sst::archived_fresh(raw.1)
        != expected.object.fresh {
        Err(SstDecodeError::IdentityMismatch)
    } else if raw.2.len() == 0 {
        Err(SstDecodeError::InvalidBody)
    } else if raw.2.len() > PARTITION_PATH_OCCUPANCIES_MAX_V2 {
        Err(SstDecodeError::ResourceBound)
    } else if !directory_rows_accepted(archived_directory_rows(raw.2), accepts) {
        Err(SstDecodeError::InvalidBody)
    } else {
        Ok(archived_directory_rows(raw.2))
    }
}

/// The rows that the bytes of a Directory table at a key hold: all of them or none.
pub open spec fn spec_decode_directory_sst(
    expected: TableKey,
    bytes: Seq<u8>,
    accepts: spec_fn(ProtocolText) -> bool,
) -> Result<Seq<(Seq<u8>, DirectoryEntry)>, SstDecodeError> {
    if bytes.len() > SST_OBJECT_BYTES_MAX_USIZE {
        Err(SstDecodeError::EncodedBytesOverMax { bytes_actual: bytes.len() as u64 })
    } else if expected.object.store != StoreKind::Directory {
        Err(SstDecodeError::StoreMismatch)
    } else {
        match crate::domain::archive::directory_archive_value(bytes) {
            None => Err(SstDecodeError::MalformedArchive),
            Some(raw) => spec_decode_archived_directory(expected, raw, accepts),
        }
    }
}

/// Why rows form no Directory table, if they form none.
pub open spec fn directory_encode_error(
    expected: TableKey,
    rows: Seq<(Seq<u8>, DirectoryEntry)>,
) -> Option<SstEncodeError> {
    if expected.object.store != StoreKind::Directory {
        Some(SstEncodeError::StoreMismatch)
    } else if rows.len() == 0 {
        Some(SstEncodeError::EmptyTable)
    } else if crate::domain::sst::rows_over_max(rows.len(), DIRECTORY_ARCHIVED_ROW_BYTES as nat) {
        Some(SstEncodeError::EncodedBytesOverMax)
    } else if !directory_ordered(rows) {
        Some(SstEncodeError::RowsNotStrictlyOrdered)
    } else if crate::domain::archive::directory_archive_bytes(directory_archive(expected, rows)).len()
        > SST_OBJECT_BYTES_MAX_USIZE {
        Some(SstEncodeError::EncodedBytesOverMax)
    } else {
        None
    }
}

/// Every path is UTF-8 and no longer than a Directory key may be.
pub open spec fn paths_fit(rows: Seq<(Seq<u8>, DirectoryEntry)>) -> bool {
    forall|i: int|
        0 <= i < rows.len() ==> crate::domain::protocol::path_fits((#[trigger] rows[i]).0)
}

/// Worst-case bytes of a table of so many Directory rows.
pub open spec fn directory_estimate(rows: nat) -> nat {
    SST_ARCHIVE_FIXED_BYTES_MAX as nat + rows * DIRECTORY_ROW_ENCODED_BYTES_MAX as nat
}

proof fn lemma_directory_room(rows: Seq<(Seq<u8>, DirectoryEntry)>)
    requires
        paths_fit(rows),
    ensures
        crate::domain::archive::directory_rows_room(directory_rows_archive(rows)) <= rows.len()
            * DIRECTORY_ROW_ENCODED_BYTES_MAX,
    decreases rows.len(),
{
    if rows.len() > 0 {
        assert(paths_fit(rows.drop_last())) by {
            assert forall|i: int|
                0 <= i < rows.drop_last().len() implies crate::domain::protocol::path_fits(
                (#[trigger] rows.drop_last()[i]).0,
            ) by {
                assert(rows.drop_last()[i] == rows[i]);
            }
        }
        lemma_directory_room(rows.drop_last());
        assert(directory_rows_archive(rows).drop_last() =~= directory_rows_archive(
            rows.drop_last(),
        ));
        assert(crate::domain::protocol::path_fits(rows[rows.len() - 1].0));
        vstd::utf8::decode_utf8_encode_utf8(rows.last().0);
    }
}

/// Encodes one non-empty, strictly ordered Directory table. The worst-case account
/// of its rows is sound: the table is never longer, so rows whose account is inside
/// the bound are never refused for their length.
pub fn encode_directory_sst(expected: &TableKey, rows: &[(DirectoryKey, DirectoryEntry)]) -> (encoded:
    Result<Vec<u8>, SstEncodeError>)
    requires
        paths_fit(directory_rows(rows@)),
    ensures
        expected.object.store == StoreKind::Directory && 0 < rows@.len() && directory_ordered(
            directory_rows(rows@),
        ) && directory_estimate(rows@.len()) <= SST_OBJECT_BYTES_MAX_USIZE ==> encoded is Ok,
        encoded matches Ok(bytes) ==> bytes@.len() <= directory_estimate(rows@.len()),
        match encoded {
            Ok(bytes) => {
                let value = directory_archive(*expected, directory_rows(rows@));
                &&& directory_encode_error(*expected, directory_rows(rows@)) is None
                &&& bytes@ == crate::domain::archive::directory_archive_bytes(value)
                &&& 0 < bytes@.len() <= SST_OBJECT_BYTES_MAX_USIZE
                &&& crate::domain::archive::directory_archive_value(bytes@) == Some(value)
            },
            Err(error) => directory_encode_error(*expected, directory_rows(rows@)) == Some(error),
        },
{
    if expected.object.store != StoreKind::Directory {
        return Err(SstEncodeError::StoreMismatch);
    }
    if rows.len() == 0 {
        return Err(SstEncodeError::EmptyTable);
    }
    match check_encode_rows(rows.len(), DIRECTORY_ARCHIVED_ROW_BYTES) {
        Ok(()) => {},
        Err(error) => {
            return Err(error);
        },
    }
    if !is_directory_ordered(rows) {
        return Err(SstEncodeError::RowsNotStrictlyOrdered);
    }
    let raw: RawDirectory = (
        expected.partition.octets,
        encode_fresh(expected.object.fresh),
        encode_rows(rows),
    );
    proof {
        assert(raw.0.deep_view() =~= expected.partition.octets@);
        assert(raw.deep_view() == directory_archive(*expected, directory_rows(rows@)));
        lemma_directory_room(directory_rows(rows@));
    }
    match write_directory_archive(&raw, SST_OBJECT_BYTES_MAX_USIZE) {
        Some(bytes) => Ok(bytes),
        None => Err(SstEncodeError::EncodedBytesOverMax),
    }
}

fn is_directory_ordered(rows: &[(DirectoryKey, DirectoryEntry)]) -> (ordered: bool)
    ensures
        ordered == directory_ordered(directory_rows(rows@)),
{
    let ghost said = directory_rows(rows@);
    let mut at: usize = 1;
    while at < rows.len()
        invariant
            1 <= at,
            said == directory_rows(rows@),
            forall|i: int, j: int|
                0 <= i < j < at && j < said.len() ==> crate::domain::text::bytes_less(
                    (#[trigger] said[i]).0,
                    (#[trigger] said[j]).0,
                ),
        decreases rows.len() - at,
    {
        assert(said[at as int].0 == rows@[at as int].0@);
        assert(said[at - 1].0 == rows@[at - 1].0@);
        if !rows[at - 1].0.is_before(&rows[at].0) {
            return false;
        }
        assert forall|i: int, j: int|
            0 <= i < j < at + 1 && j < said.len() implies crate::domain::text::bytes_less(
            (#[trigger] said[i]).0,
            (#[trigger] said[j]).0,
        ) by {
            if j == at && i < at - 1 {
                crate::domain::text::lemma_bytes_less_transitive(
                    said[i].0,
                    said[at - 1].0,
                    said[at as int].0,
                );
            }
        }
        at += 1;
    }
    true
}

fn encode_rows(rows: &[(DirectoryKey, DirectoryEntry)]) -> (raw: Vec<RawDirectoryRow>)
    requires
        paths_fit(directory_rows(rows@)),
    ensures
        raw.deep_view() == directory_rows_archive(directory_rows(rows@)),
{
    let mut raw: Vec<RawDirectoryRow> = Vec::new();
    let mut at: usize = 0;
    while at < rows.len()
        invariant
            at <= rows.len(),
            raw@.len() == at,
            paths_fit(directory_rows(rows@)),
            forall|i: int|
                0 <= i < at ==> (#[trigger] raw@[i]).deep_view() == (
                    vstd::utf8::decode_utf8(rows@[i].0@),
                    entry_archive(rows@[i].1),
                ),
        decreases rows.len() - at,
    {
        let entry: (u8, u64) = match rows[at].1 {
            DirectoryEntry::Live(uid) => (0, uid.value),
            DirectoryEntry::Tombstone(uid) => (1, uid.value),
        };
        assert(crate::domain::protocol::path_fits(directory_rows(rows@)[at as int].0));
        let path = match utf8_text(rows[at].0.as_bytes()) {
            Some(text) => {
                proof {
                    vstd::utf8::encode_utf8_decode_utf8(text@);
                }
                String::from_str(text)
            },
            None => String::new(),
        };
        raw.push((path, entry));
        at += 1;
    }
    assert(raw.deep_view() =~= directory_rows_archive(directory_rows(rows@)));
    raw
}

/// Decodes a complete Directory table into an all-or-nothing owned row set.
pub fn decode_directory_sst<Grammar: Fn(ProtocolField<'_>) -> bool>(
    expected: &TableKey,
    bytes: &[u8],
    grammar: &Grammar,
) -> (rows: Result<Vec<(DirectoryKey, DirectoryEntry)>, SstDecodeError>)
    requires
        crate::domain::protocol::is_total(*grammar),
    ensures
        rows matches Ok(rows) ==> directory_ordered(directory_rows(rows@)) && rows@.len() > 0
            && directory_rows_wf(directory_rows(rows@)),
        forall|accepts: spec_fn(ProtocolText) -> bool|
            #[trigger] crate::domain::protocol::decides(*grammar, accepts) ==> match rows {
                Ok(rows) => spec_decode_directory_sst(*expected, bytes@, accepts) == Ok::<
                    _,
                    SstDecodeError,
                >(directory_rows(rows@)),
                Err(error) => spec_decode_directory_sst(*expected, bytes@, accepts) == Err::<
                    Seq<(Seq<u8>, DirectoryEntry)>,
                    SstDecodeError,
                >(error),
            },
{
    match check_decode_bound(bytes) {
        Ok(()) => {},
        Err(error) => {
            return Err(error);
        },
    }
    if expected.object.store != StoreKind::Directory {
        return Err(SstDecodeError::StoreMismatch);
    }
    match read_directory_archive(bytes) {
        None => Err(SstDecodeError::MalformedArchive),
        Some(raw) => decode_archived_directory(expected, &raw, grammar),
    }
}

/// Every entry names a stream.
pub open spec fn directory_rows_wf(rows: Seq<(Seq<u8>, DirectoryEntry)>) -> bool {
    forall|i: int|
        0 <= i < rows.len() ==> (#[trigger] rows[i]).1.wf() && crate::domain::protocol::path_fits(
            rows[i].0,
        )
}

/// Checks archived plain values of a Directory table against its key.
pub fn decode_archived_directory<Grammar: Fn(ProtocolField<'_>) -> bool>(
    expected: &TableKey,
    raw: &RawDirectory,
    grammar: &Grammar,
) -> (rows: Result<Vec<(DirectoryKey, DirectoryEntry)>, SstDecodeError>)
    requires
        crate::domain::protocol::is_total(*grammar),
    ensures
        rows matches Ok(rows) ==> directory_ordered(directory_rows(rows@)) && rows@.len() > 0
            && directory_rows_wf(directory_rows(rows@)),
        forall|accepts: spec_fn(ProtocolText) -> bool|
            #[trigger] crate::domain::protocol::decides(*grammar, accepts) ==> match rows {
                Ok(rows) => spec_decode_archived_directory(*expected, raw.deep_view(), accepts)
                    == Ok::<_, SstDecodeError>(directory_rows(rows@)),
                Err(error) => spec_decode_archived_directory(*expected, raw.deep_view(), accepts)
                    == Err::<Seq<(Seq<u8>, DirectoryEntry)>, SstDecodeError>(error),
            },
{
    let ghost value = raw.deep_view();
    assert(value.0 =~= raw.0@);
    if raw.1.0 == 0 || raw.1.1 == 0 || !is_rows_structured(&raw.2) {
        return Err(SstDecodeError::MalformedArchive);
    }
    let partition = match PartitionId::try_from(raw.0) {
        Ok(partition) => partition,
        Err(_nil) => {
            return Err(SstDecodeError::InvalidBody);
        },
    };
    let fresh = match decode_fresh(raw.1) {
        Some(fresh) => fresh,
        None => {
            return Err(SstDecodeError::InvalidBody);
        },
    };
    if !partition.is_same(&expected.partition) || fresh != expected.object.fresh {
        proof {
            assert(partition.octets@ == expected.partition.octets@ ==> partition.octets
                == expected.partition.octets);
        }
        return Err(SstDecodeError::IdentityMismatch);
    }
    if raw.2.len() == 0 {
        return Err(SstDecodeError::InvalidBody);
    }
    if raw.2.len() as u64 > PARTITION_PATH_OCCUPANCIES_MAX_V2 {
        return Err(SstDecodeError::ResourceBound);
    }
    match decode_rows(&raw.2, grammar) {
        Some(rows) => Ok(rows),
        None => Err(SstDecodeError::InvalidBody),
    }
}

fn is_rows_structured(raw: &Vec<RawDirectoryRow>) -> (structured: bool)
    ensures
        structured == (forall|i: int|
            0 <= i < raw.deep_view().len() ==> directory_row_structured(
                #[trigger] raw.deep_view()[i],
            )),
{
    let ghost value = raw.deep_view();
    let mut at: usize = 0;
    while at < raw.len()
        invariant
            at <= raw.len(),
            value == raw.deep_view(),
            forall|i: int| 0 <= i < at ==> directory_row_structured(#[trigger] value[i]),
        decreases raw.len() - at,
    {
        assert(value[at as int] == raw@[at as int].deep_view());
        if raw[at].1.0 > 1 || raw[at].1.1 == 0 {
            assert(!directory_row_structured(value[at as int]));
            return false;
        }
        at += 1;
    }
    true
}

/// Reads rows whose count is inside the bound; the bound on the count keeps the
/// resident account of the rows inside its own bound.
fn decode_rows<Grammar: Fn(ProtocolField<'_>) -> bool>(
    raw: &Vec<RawDirectoryRow>,
    grammar: &Grammar,
) -> (rows: Option<Vec<(DirectoryKey, DirectoryEntry)>>)
    requires
        raw@.len() <= PARTITION_PATH_OCCUPANCIES_MAX_V2,
        forall|i: int|
            0 <= i < raw.deep_view().len() ==> directory_row_structured(
                #[trigger] raw.deep_view()[i],
            ),
        crate::domain::protocol::is_total(*grammar),
    ensures
        rows matches Some(rows) ==> {
            &&& rows@.len() == raw@.len()
            &&& directory_rows(rows@) == archived_directory_rows(raw.deep_view())
            &&& directory_ordered(directory_rows(rows@))
            &&& directory_rows_wf(directory_rows(rows@))
        },
        forall|accepts: spec_fn(ProtocolText) -> bool|
            #[trigger] crate::domain::protocol::decides(*grammar, accepts) ==> rows is Some
                == directory_rows_accepted(archived_directory_rows(raw.deep_view()), accepts),
{
    let ghost said = archived_directory_rows(raw.deep_view());
    let mut rows: Vec<(DirectoryKey, DirectoryEntry)> = Vec::new();
    let mut resident_bytes: u64 = 0;
    let mut at: usize = 0;
    while at < raw.len()
        invariant
            at <= raw.len() <= PARTITION_PATH_OCCUPANCIES_MAX_V2,
            said == archived_directory_rows(raw.deep_view()),
            forall|i: int|
                0 <= i < raw.deep_view().len() ==> directory_row_structured(
                    #[trigger] raw.deep_view()[i],
                ),
            crate::domain::protocol::is_total(*grammar),
            resident_bytes == at * DIRECTORY_ROW_LOGICAL_BYTES_MAX,
            rows@.len() == at,
            forall|i: int|
                0 <= i < at ==> (#[trigger] rows@[i]).0@ == said[i].0 && rows@[i].1 == said[i].1
                    && said[i].1.wf() && crate::domain::protocol::path_fits(said[i].0),
            forall|i: int, j: int|
                0 <= i < j < at ==> crate::domain::text::bytes_less(
                    (#[trigger] said[i]).0,
                    (#[trigger] said[j]).0,
                ),
            forall|accepts: spec_fn(ProtocolText) -> bool|
                #[trigger] crate::domain::protocol::decides(*grammar, accepts) ==> forall|i: int|
                    0 <= i < at ==> stored_path_accepted((#[trigger] said[i]).0, accepts),
        decreases raw.len() - at,
    {
        let ghost row = raw@[at as int];
        assert(raw.deep_view()[at as int] == row.deep_view());
        assert(directory_row_structured(raw.deep_view()[at as int]));
        let path: &[u8] = raw[at].0.as_str().as_bytes();
        if path.len() == 0 || path.len() > DIRECTORY_KEY_BYTES_MAX {
            assert forall|accepts: spec_fn(ProtocolText) -> bool|
                #[trigger] crate::domain::protocol::decides(
                    *grammar,
                    accepts,
                ) implies !directory_rows_accepted(said, accepts) by {
                assert(!stored_path_accepted(said[at as int].0, accepts));
            }
            return None;
        }
        if at > 0 && !is_bytes_less(raw[at - 1].0.as_str().as_bytes(), path) {
            assert(raw.deep_view()[at - 1] == raw@[at - 1].deep_view());
            assert(!crate::domain::text::bytes_less(said[at - 1].0, said[at as int].0));
            return None;
        }
        if !is_path_accepted(path, grammar) {
            assert forall|accepts: spec_fn(ProtocolText) -> bool|
                #[trigger] crate::domain::protocol::decides(
                    *grammar,
                    accepts,
                ) implies !directory_rows_accepted(said, accepts) by {
                assert(!stored_path_accepted(said[at as int].0, accepts));
            }
            return None;
        }
        resident_bytes = resident_bytes + DIRECTORY_ROW_LOGICAL_BYTES_MAX;
        assert(resident_bytes <= PARTITION_RESIDENT_LOGICAL_BYTES_MAX_V2);
        let uid = StreamUid { value: raw[at].1.1 };
        let entry = if raw[at].1.0 == 0 {
            DirectoryEntry::Live(uid)
        } else {
            DirectoryEntry::Tombstone(uid)
        };
        rows.push((DirectoryKey { bytes: copy_bytes(path) }, entry));
        proof {
            if at > 0 {
                assert(raw.deep_view()[at - 1] == raw@[at - 1].deep_view());
                    assert(crate::domain::text::bytes_less(said[at - 1].0, said[at as int].0));
            }
            assert forall|i: int, j: int|
                0 <= i < j < at + 1 implies crate::domain::text::bytes_less(
                (#[trigger] said[i]).0,
                (#[trigger] said[j]).0,
            ) by {
                if j == at && i < at - 1 {
                    crate::domain::text::lemma_bytes_less_transitive(
                        said[i].0,
                        said[at - 1].0,
                        said[at as int].0,
                    );
                }
            }
        }
        at += 1;
    }
    assert(directory_rows(rows@) =~= said);
    Some(rows)
}

/// Reading the bytes that Directory rows were encoded as, at their own key, with a
/// grammar that accepts their paths, gives the rows back.
///
/// The premises on `bytes` are what [`encode_directory_sst`] ensures of the bytes
/// it returns.
pub proof fn law_directory_sst_round_trips(
    key: TableKey,
    rows: Seq<(Seq<u8>, DirectoryEntry)>,
    bytes: Seq<u8>,
    accepts: spec_fn(ProtocolText) -> bool,
)
    requires
        key.wf(),
        directory_encode_error(key, rows) is None,
        directory_rows_wf(rows),
        forall|i: int|
            0 <= i < rows.len() ==> stored_path_accepted((#[trigger] rows[i]).0, accepts),
        bytes.len() <= SST_OBJECT_BYTES_MAX_USIZE,
        crate::domain::archive::directory_archive_value(bytes) == Some(directory_archive(key, rows)),
    ensures
        spec_decode_directory_sst(key, bytes, accepts) == Ok::<_, SstDecodeError>(rows),
{
    let raw = directory_archive(key, rows);
    assert forall|i: int| 0 <= i < raw.2.len() implies directory_row_structured(#[trigger] raw.2[i]) by {
        assert(rows[i].1.wf());
    }
    assert forall|i: int| 0 <= i < rows.len() implies archived_directory_rows(raw.2)[i]
        == rows[i] by {
        assert(rows[i].1.wf() && crate::domain::protocol::path_fits(rows[i].0));
        vstd::utf8::decode_utf8_encode_utf8(rows[i].0);
    }
    assert(archived_directory_rows(raw.2) =~= rows);
}

} // verus!
