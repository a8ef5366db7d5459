//! Laws of unpacking, proved of the model that the contracts speak of.

use crate::error::UnpackingError;
use crate::model::{apply, blank_image, clamp, run, Entry, Progress, FILL};
use crate::record::HexRecord;
use vstd::prelude::*;

verus! {

/// The state in which entry `k` of `entries` finds a run that started in
/// `p`, where all entries before it were applied.
pub open spec fn state_before(
    p: Progress,
    entries: Seq<Entry>,
    k: int,
    base_offset: usize,
) -> Progress {
    run(p, entries.take(k), base_offset).progress
}

/// The position in the image to which entry `k`, a data record, writes its
/// first byte: the base address then in effect plus the record's offset.
pub open spec fn start_of(p: Progress, entries: Seq<Entry>, k: int, base_offset: usize) -> int {
    state_before(p, entries, k, base_offset).base_address + entries[k]->Ok_0->offset
}

/// Whether entry `k` is a data record that covers position `at` of the image.
pub open spec fn writes(
    p: Progress,
    entries: Seq<Entry>,
    k: int,
    base_offset: usize,
    at: int,
) -> bool {
    &&& entries[k] matches Ok(record)
    &&& record is Data
    &&& start_of(p, entries, k, base_offset) <= at < start_of(p, entries, k, base_offset)
        + record.payload().len()
}

/// Whether entry `k` is a record that sets the base address.
pub open spec fn sets_base_at(entries: Seq<Entry>, k: int) -> bool {
    entries[k] matches Ok(record) && record.sets_base()
}

/// The number of payload bytes in the first `n` entries.
pub open spec fn payload_total(entries: Seq<Entry>, n: int) -> nat
    decreases n,
{
    if n <= 0 {
        0
    } else {
        payload_total(entries, n - 1) + match entries[n - 1] {
            Ok(record) => record.payload().len(),
            Err(_) => 0,
        }
    }
}

/// A run consumes no more entries than there are, all of them unless it
/// stops early, and leaves the image as long as it was.
pub proof fn lemma_run_shape(p: Progress, entries: Seq<Entry>, base_offset: usize)
    ensures
        ({
            let whole = run(p, entries, base_offset);
            &&& whole.consumed <= entries.len()
            &&& whole.stop is Exhausted ==> whole.consumed == entries.len()
            &&& !(whole.stop is Exhausted) ==> whole.consumed >= 1
            &&& whole.progress.image.len() == p.image.len()
        }),
    decreases entries.len(),
{
    if entries.len() > 0 {
        if let Ok(record) = entries[0] {
            if let Ok(next) = apply(p, record, base_offset) {
                if !(record is EndOfFile) {
                    lemma_run_shape(next, entries.skip(1), base_offset);
                }
            }
        }
    }
}

/// The run over the first `n` entries, where the whole run applies at
/// least that many: it applies them all, and entry `n`, if the whole run
/// applies it too, leads from its state to that of the run over `n + 1`
/// entries. The run over all applied entries ends in the state of the
/// whole run.
pub proof fn lemma_run_prefix(p: Progress, entries: Seq<Entry>, n: int, base_offset: usize)
    requires
        0 <= n <= run(p, entries, base_offset).applied(),
    ensures
        ({
            let whole = run(p, entries, base_offset);
            let part = run(p, entries.take(n), base_offset);
            &&& n <= entries.len()
            &&& part.consumed == n
            &&& !(part.stop is Failed)
            &&& n < whole.applied() ==> {
                &&& part.stop is Exhausted
                &&& entries[n] is Ok
                &&& apply(part.progress, entries[n]->Ok_0, base_offset) == Ok::<
                    Progress,
                    UnpackingError,
                >(run(p, entries.take(n + 1), base_offset).progress)
            }
            &&& n == whole.applied() ==> {
                &&& part.progress == whole.progress
                &&& (part.stop is EndOfFile <==> whole.stop is EndOfFile)
            }
        }),
    decreases entries.len(),
{
    let whole = run(p, entries, base_offset);
    lemma_run_shape(p, entries, base_offset);
    if n == 0 {
        assert(entries.take(0) =~= Seq::<Entry>::empty());
        if 0 < whole.applied() {
            let next = apply(p, entries[0]->Ok_0, base_offset)->Ok_0;
            let first = entries.take(1);
            assert(first[0] == entries[0]);
            assert(first.skip(1) =~= Seq::<Entry>::empty());
            assert(run(next, first.skip(1), base_offset).progress == next);
            assert(run(p, first, base_offset).progress == next);
        }
    } else {
        let record = entries[0]->Ok_0;
        let next = apply(p, record, base_offset)->Ok_0;
        let head = entries.take(n);
        assert(head[0] == entries[0]);
        if record is EndOfFile {
            assert(n == 1);
        } else {
            let rest = entries.skip(1);
            lemma_run_prefix(next, rest, n - 1, base_offset);
            assert(head.skip(1) =~= rest.take(n - 1));
            assert(run(p, head, base_offset).progress == run(
                next,
                rest.take(n - 1),
                base_offset,
            ).progress);
            if n < whole.applied() {
                let longer = entries.take(n + 1);
                assert(longer[0] == entries[0]);
                assert(longer.skip(1) =~= rest.take(n));
                assert(rest[n - 1] == entries[n]);
                assert(run(p, longer, base_offset).progress == run(
                    next,
                    rest.take(n),
                    base_offset,
                ).progress);
            }
        }
    }
}

/// A position that none of the entries from `from` up to `to` writes holds
/// after them what it held before them.
proof fn lemma_unwritten_between(
    p: Progress,
    entries: Seq<Entry>,
    from: int,
    to: int,
    at: int,
    base_offset: usize,
)
    requires
        0 <= from <= to <= run(p, entries, base_offset).applied(),
        0 <= at < p.image.len(),
        forall|j: int| from <= j < to ==> !writes(p, entries, j, base_offset, at),
    ensures
        state_before(p, entries, to, base_offset).image[at] == state_before(
            p,
            entries,
            from,
            base_offset,
        ).image[at],
    decreases to - from,
{
    if from < to {
        lemma_unwritten_between(p, entries, from, to - 1, at, base_offset);
        lemma_run_prefix(p, entries, to - 1, base_offset);
        lemma_run_shape(p, entries.take(to - 1), base_offset);
        assert(!writes(p, entries, to - 1, base_offset, at));
    }
}

/// A byte of the image that no applied data record covers is left as it
/// was: in an image that started blank it still holds the fill value.
pub proof fn lemma_untouched_bytes_keep_value(
    p: Progress,
    entries: Seq<Entry>,
    at: int,
    base_offset: usize,
)
    requires
        0 <= at < p.image.len(),
        forall|j: int|
            0 <= j < run(p, entries, base_offset).applied() ==> !writes(
                p,
                entries,
                j,
                base_offset,
                at,
            ),
    ensures
        run(p, entries, base_offset).progress.image[at] == p.image[at],
        p.image == blank_image(p.image.len()) ==> run(p, entries, base_offset).progress.image[at]
            == FILL,
{
    let whole = run(p, entries, base_offset);
    lemma_unwritten_between(p, entries, 0, whole.applied() as int, at, base_offset);
    lemma_run_prefix(p, entries, whole.applied() as int, base_offset);
    lemma_run_prefix(p, entries, 0, base_offset);
    assert(entries.take(0) =~= Seq::<Entry>::empty());
}

/// Where several applied data records cover a position, the image holds
/// there the byte of the one that came last: a byte that data record `k`
/// wrote is still in the image unless a later applied record covers its
/// position.
pub proof fn lemma_last_write_wins(
    p: Progress,
    entries: Seq<Entry>,
    k: int,
    at: int,
    base_offset: usize,
)
    requires
        0 <= k < run(p, entries, base_offset).applied(),
        writes(p, entries, k, base_offset, at),
        forall|j: int|
            k < j < run(p, entries, base_offset).applied() ==> !writes(
                p,
                entries,
                j,
                base_offset,
                at,
            ),
    ensures
        0 <= at < p.image.len(),
        run(p, entries, base_offset).progress.image[at] == entries[k]->Ok_0.payload()[at
            - start_of(p, entries, k, base_offset)],
{
    let whole = run(p, entries, base_offset);
    lemma_run_prefix(p, entries, k, base_offset);
    lemma_run_shape(p, entries.take(k), base_offset);
    lemma_unwritten_between(p, entries, k + 1, whole.applied() as int, at, base_offset);
    lemma_run_prefix(p, entries, whole.applied() as int, base_offset);
}

/// The bytes written are counted record by record: overlapping records
/// count twice. The count is the sum of the payload lengths of all applied
/// entries, up to `usize::MAX`.
pub proof fn lemma_used_bytes_sum_payloads(p: Progress, entries: Seq<Entry>, base_offset: usize)
    requires
        p.used_bytes <= usize::MAX,
    ensures
        ({
            let whole = run(p, entries, base_offset);
            whole.progress.used_bytes == clamp(
                p.used_bytes + payload_total(entries, whole.applied() as int),
            )
        }),
{
    let whole = run(p, entries, base_offset);
    lemma_used_up_to(p, entries, whole.applied() as int, base_offset);
    lemma_run_prefix(p, entries, whole.applied() as int, base_offset);
}

/// The count of bytes written after the first `n` entries, all applied.
proof fn lemma_used_up_to(p: Progress, entries: Seq<Entry>, n: int, base_offset: usize)
    requires
        0 <= n <= run(p, entries, base_offset).applied(),
        p.used_bytes <= usize::MAX,
    ensures
        state_before(p, entries, n, base_offset).used_bytes == clamp(
            p.used_bytes + payload_total(entries, n),
        ),
    decreases n,
{
    if n == 0 {
        assert(entries.take(0) =~= Seq::<Entry>::empty());
    } else {
        lemma_used_up_to(p, entries, n - 1, base_offset);
        lemma_run_prefix(p, entries, n - 1, base_offset);
    }
}

/// A run can be cut at any entry: where the run over the first `k` entries
/// applies them all without reaching an end-of-file record, the whole run
/// goes on from its state with the entries that are left; where it stops
/// early, the whole run is that run.
pub proof fn lemma_run_splits(p: Progress, entries: Seq<Entry>, k: int, base_offset: usize)
    requires
        0 <= k <= entries.len(),
    ensures
        ({
            let head = run(p, entries.take(k), base_offset);
            let tail = run(head.progress, entries.skip(k), base_offset);
            let whole = run(p, entries, base_offset);
            if head.stop is Exhausted {
                &&& head.consumed == k
                &&& whole.progress == tail.progress
                &&& whole.stop == tail.stop
                &&& whole.consumed == k + tail.consumed
            } else {
                whole == head
            }
        }),
    decreases k,
{
    if k == 0 {
        assert(entries.take(0) =~= Seq::<Entry>::empty());
        assert(entries.skip(0) =~= entries);
    } else {
        let front = entries.take(k);
        assert(front[0] == entries[0]);
        if let Ok(record) = entries[0] {
            if let Ok(next) = apply(p, record, base_offset) {
                if !(record is EndOfFile) {
                    let rest = entries.skip(1);
                    lemma_run_splits(next, rest, k - 1, base_offset);
                    assert(front.skip(1) =~= rest.take(k - 1));
                    assert(rest.skip(k - 1) =~= entries.skip(k));
                }
            }
        }
    }
}

/// An end-of-file record ends the run: whatever follows it in the source
/// is neither taken from the source nor applied.
pub proof fn lemma_end_of_file_halts(p: Progress, entries: Seq<Entry>, k: int, base_offset: usize)
    requires
        0 <= k < entries.len(),
        entries[k] matches Ok(record) && record is EndOfFile,
    ensures
        run(p, entries, base_offset) == run(p, entries.take(k + 1), base_offset),
        run(p, entries, base_offset).consumed <= k + 1,
{
    let upto = entries.take(k + 1);
    lemma_run_splits(p, entries, k, base_offset);
    lemma_run_splits(p, upto, k, base_offset);
    lemma_run_shape(p, entries.take(k), base_offset);
    assert(upto.take(k) =~= entries.take(k));
    assert(upto.skip(k)[0] == entries[k]);
    assert(entries.skip(k)[0] == entries[k]);
}

/// An entry that could not be decoded ends the run with its cause, and
/// what the records before it did stays done: the run stops in the state
/// that they led to.
pub proof fn lemma_parse_failure_aborts(
    p: Progress,
    entries: Seq<Entry>,
    k: int,
    base_offset: usize,
)
    requires
        0 <= k < entries.len(),
        entries[k] is Err,
        run(p, entries.take(k), base_offset).stop is Exhausted,
    ensures
        ({
            let whole = run(p, entries, base_offset);
            &&& whole.outcome() == Err::<usize, UnpackingError>(
                UnpackingError::Parsing(entries[k]->Err_0),
            )
            &&& whole.progress == run(p, entries.take(k), base_offset).progress
            &&& whole.consumed == k + 1
        }),
{
    lemma_run_splits(p, entries, k, base_offset);
    assert(entries.skip(k)[0] == entries[k]);
}

/// A record that names an entry point changes nothing: not the image, not
/// the base address, not the count of bytes written. A run ends in the
/// same state and for the same reason with or without it.
pub proof fn lemma_start_address_is_ignored(
    p: Progress,
    entries: Seq<Entry>,
    k: int,
    base_offset: usize,
)
    requires
        0 <= k < entries.len(),
        entries[k] matches Ok(record) && record.is_start_address(),
    ensures
        apply(p, entries[k]->Ok_0, base_offset) == Ok::<Progress, UnpackingError>(p),
        run(p, entries.remove(k), base_offset).progress == run(p, entries, base_offset).progress,
        run(p, entries.remove(k), base_offset).stop == run(p, entries, base_offset).stop,
{
    let without = entries.remove(k);
    lemma_run_splits(p, entries, k, base_offset);
    lemma_run_splits(p, without, k, base_offset);
    assert(without.take(k) =~= entries.take(k));
    assert(without.skip(k) =~= entries.skip(k + 1));
    assert(entries.skip(k)[0] == entries[k]);
    assert(entries.skip(k).skip(1) =~= entries.skip(k + 1));
}

/// The base address stays what it is across entries that do not set it.
proof fn lemma_base_kept(p: Progress, entries: Seq<Entry>, from: int, to: int, base_offset: usize)
    requires
        0 <= from <= to <= run(p, entries, base_offset).applied(),
        forall|i: int| from <= i < to ==> !sets_base_at(entries, i),
    ensures
        state_before(p, entries, to, base_offset).base_address == state_before(
            p,
            entries,
            from,
            base_offset,
        ).base_address,
    decreases to - from,
{
    if from < to {
        lemma_base_kept(p, entries, from, to - 1, base_offset);
        lemma_run_prefix(p, entries, to - 1, base_offset);
        assert(!sets_base_at(entries, to - 1));
    }
}

/// Before any record has set it, the base address is that of the start.
pub proof fn lemma_base_at_start(p: Progress, entries: Seq<Entry>, k: int, base_offset: usize)
    requires
        0 <= k <= run(p, entries, base_offset).applied(),
        forall|i: int| 0 <= i < k ==> !sets_base_at(entries, i),
    ensures
        state_before(p, entries, k, base_offset).base_address == p.base_address,
{
    lemma_base_kept(p, entries, 0, k, base_offset);
    assert(entries.take(0) =~= Seq::<Entry>::empty());
}

/// A record that sets the base address sets it for the data records that
/// follow, up to the next such record: their offsets count from the
/// record's value, shifted left by sixteen bits for an extended linear
/// address and by four for an extended segment address, less the base
/// offset.
pub proof fn lemma_base_in_effect(
    p: Progress,
    entries: Seq<Entry>,
    j: int,
    k: int,
    base_offset: usize,
)
    requires
        0 <= j < k <= run(p, entries, base_offset).applied(),
        sets_base_at(entries, j),
        forall|i: int| j < i < k ==> !sets_base_at(entries, i),
    ensures
        ({
            let record = entries[j]->Ok_0;
            &&& record.shifted_base() >= base_offset
            &&& state_before(p, entries, k, base_offset).base_address == record.shifted_base()
                - base_offset
            &&& record matches HexRecord::ExtendedLinearAddress(upper) ==> record.shifted_base()
                == (upper as u32) << 16
            &&& record matches HexRecord::ExtendedSegmentAddress(segment) ==> record.shifted_base()
                == (segment as u32) << 4
        }),
{
    lemma_run_prefix(p, entries, j, base_offset);
    lemma_base_kept(p, entries, j + 1, k, base_offset);
    match entries[j]->Ok_0 {
        HexRecord::ExtendedLinearAddress(upper) => {
            let wide = upper as u32;
            assert(wide << 16 == wide * 0x1_0000) by (bit_vector)
                requires
                    wide <= 0xFFFF,
            ;
        },
        HexRecord::ExtendedSegmentAddress(segment) => {
            let wide = segment as u32;
            assert(wide << 4 == wide * 0x10) by (bit_vector)
                requires
                    wide <= 0xFFFF,
            ;
        },
        _ => {},
    }
}

/// A data record is applied if and only if it ends within the image: one
/// that ends exactly at the end of the image is applied; one that ends one
/// byte further is refused, with that end address and the length of the
/// image in the error.
pub proof fn lemma_end_of_image_is_the_limit(p: Progress, record: HexRecord, base_offset: usize)
    requires
        record is Data,
    ensures
        ({
            let end = p.base_address + record->offset + record.payload().len();
            let len = p.image.len();
            &&& apply(p, record, base_offset) is Ok <==> end <= len
            &&& end == len + 1 && len < usize::MAX ==> apply(p, record, base_offset) == Err::<
                Progress,
                UnpackingError,
            >(UnpackingError::AddressTooHigh((len + 1) as usize, len as usize))
        }),
{
}

/// Whether every entry is a data record.
pub open spec fn data_only(entries: Seq<Entry>) -> bool {
    forall|k: int|
        0 <= k < entries.len() ==> (#[trigger] entries[k] matches Ok(record) && record is Data)
}

/// Whether entry `k`, a data record, covers position `at` of an image whose
/// base address is 0.
pub open spec fn covers(entries: Seq<Entry>, k: int, at: int) -> bool {
    let record = entries[k]->Ok_0;
    record->offset <= at < record->offset + record.payload().len()
}

/// Whether every data record ends within an image of `len` bytes whose
/// base address is 0.
pub open spec fn spans_fit(entries: Seq<Entry>, len: nat) -> bool {
    forall|k: int|
        0 <= k < entries.len() ==> {
            let record = (#[trigger] entries[k])->Ok_0;
            record->offset + record.payload().len() <= len
        }
}

/// Whether no position is covered by two of the data records.
pub open spec fn spans_disjoint(entries: Seq<Entry>) -> bool {
    forall|j: int, k: int, at: int|
        0 <= j < k < entries.len() && #[trigger] covers(entries, j, at) ==> !#[trigger] covers(
            entries,
            k,
            at,
        )
}

/// The positions that the first `n` data records cover.
spec fn covered(entries: Seq<Entry>, n: int) -> Set<int>
    decreases n,
{
    if n <= 0 {
        Set::empty()
    } else {
        covered(entries, n - 1) + Set::new(|at: int| covers(entries, n - 1, at))
    }
}

/// A record among the first `n` that covers a covered position.
proof fn lemma_covered_by(entries: Seq<Entry>, n: int, at: int) -> (j: int)
    requires
        covered(entries, n).contains(at),
    ensures
        0 <= j < n,
        covers(entries, j, at),
    decreases n,
{
    if covers(entries, n - 1, at) {
        n - 1
    } else {
        lemma_covered_by(entries, n - 1, at)
    }
}

/// Data records that do not overlap cover as many positions as they have
/// payload bytes, so that these are no more than the image has.
proof fn lemma_disjoint_spans_total(entries: Seq<Entry>, n: int, len: nat)
    requires
        0 <= n <= entries.len(),
        data_only(entries),
        spans_fit(entries, len),
        spans_disjoint(entries),
    ensures
        covered(entries, n).finite(),
        covered(entries, n).len() == payload_total(entries, n),
        covered(entries, n).subset_of(vstd::set_lib::set_int_range(0, len as int)),
        payload_total(entries, n) <= len,
    decreases n,
{
    let whole = vstd::set_lib::set_int_range(0, len as int);
    vstd::set_lib::lemma_int_range(0, len as int);
    if n > 0 {
        lemma_disjoint_spans_total(entries, n - 1, len);
        let record = entries[n - 1]->Ok_0;
        let before = covered(entries, n - 1);
        let span = Set::new(|at: int| covers(entries, n - 1, at));
        let low = record->offset as int;
        let high = low + record.payload().len();
        vstd::set_lib::lemma_int_range(low, high);
        assert(span =~= vstd::set_lib::set_int_range(low, high));
        assert forall|at: int| before.contains(at) implies !span.contains(at) by {
            let j = lemma_covered_by(entries, n - 1, at);
            assert(covers(entries, j, at));
        }
        assert(before.disjoint(span));
        vstd::set_lib::lemma_set_disjoint_lens(before, span);
    }
    vstd::set_lib::lemma_len_subset(covered(entries, n), whole);
}

/// Data records alone, from base address 0, all ending within the image,
/// are all applied.
proof fn lemma_data_only_applies(p: Progress, entries: Seq<Entry>, base_offset: usize)
    requires
        p.base_address == 0,
        data_only(entries),
        spans_fit(entries, p.image.len()),
    ensures
        run(p, entries, base_offset).stop is Exhausted,
    decreases entries.len(),
{
    if entries.len() > 0 {
        let record = entries[0]->Ok_0;
        let next = apply(p, record, base_offset)->Ok_0;
        let rest = entries.skip(1);
        assert forall|k: int| 0 <= k < rest.len() implies (#[trigger] rest[k] matches Ok(record)
            && record is Data) && rest[k]->Ok_0->offset + rest[k]->Ok_0.payload().len()
            <= next.image.len() by {
            assert(rest[k] == entries[k + 1]);
        }
        lemma_data_only_applies(next, rest, base_offset);
    }
}

/// Data records that end within the image and do not overlap are all
/// applied; the bytes written are then exactly as many as their payloads
/// hold, and every position that one of them covers holds its byte.
pub proof fn lemma_disjoint_data_records(image: Seq<u8>, entries: Seq<Entry>, base_offset: usize)
    requires
        image.len() <= usize::MAX,
        data_only(entries),
        spans_fit(entries, image.len()),
        spans_disjoint(entries),
    ensures
        ({
            let whole = run(Progress::start(image), entries, base_offset);
            &&& whole.stop is Exhausted
            &&& whole.consumed == entries.len()
            &&& whole.progress.used_bytes == payload_total(entries, entries.len() as int)
            &&& forall|k: int, at: int|
                0 <= k < entries.len() && #[trigger] covers(entries, k, at)
                    ==> whole.progress.image[at] == entries[k]->Ok_0.payload()[at
                    - entries[k]->Ok_0->offset]
        }),
{
    let p = Progress::start(image);
    let whole = run(p, entries, base_offset);
    lemma_data_only_applies(p, entries, base_offset);
    lemma_run_shape(p, entries, base_offset);
    lemma_used_bytes_sum_payloads(p, entries, base_offset);
    lemma_disjoint_spans_total(entries, entries.len() as int, image.len());
    assert forall|k: int| 0 <= k < entries.len() implies start_of(p, entries, k, base_offset)
        == (#[trigger] entries[k])->Ok_0->offset by {
        assert forall|i: int| 0 <= i < k implies !sets_base_at(entries, i) by {}
        lemma_base_at_start(p, entries, k, base_offset);
    }
    assert forall|k: int, at: int|
        0 <= k < entries.len() && #[trigger] covers(
            entries,
            k,
            at,
        ) implies whole.progress.image[at] == entries[k]->Ok_0.payload()[at
        - entries[k]->Ok_0->offset] by {
        assert(entries[k] is Ok);
        assert forall|j: int| k < j < whole.applied() implies !writes(
            p,
            entries,
            j,
            base_offset,
            at,
        ) by {
            assert(entries[j] is Ok);
            assert(!covers(entries, j, at));
        }
        lemma_last_write_wins(p, entries, k, at, base_offset);
    }
}

} // verus!
