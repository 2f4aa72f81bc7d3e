//! The non-volatile storage: where it lies, who may open it, and how its entries are named.
use core::sync::atomic::Ordering;
use esp_nvs::Key;
use portable_atomic::AtomicU8;
use vstd::prelude::*;

use crate::error::WmError;
use crate::text;

verus! {

/// Where the partition table lies in the flash.
pub const PART_OFFSET: u32 = 0x8000;

/// How many bytes the partition table takes.
pub const PART_SIZE: u32 = 0xc00;

/// How many bytes an entry of the partition table takes.
pub const PART_ENTRY_SIZE: u32 = 32;

/// An entry that was never written ends the table.
pub open spec fn is_end(entry: Seq<u8>) -> bool {
    forall|i: int| 0 <= i < 32 ==> entry[i] == 0xff
}

/// An entry for the partition of the non-volatile storage: the mark of an entry, the type for data
/// and the subtype for such storage.
pub open spec fn is_nvs(entry: Seq<u8>) -> bool {
    entry[0] == 0xaa && entry[1] == 0x50 && entry[2] == 1 && entry[3] == 2
}

/// The number that four bytes write, the least significant first.
pub open spec fn little_endian(entry: Seq<u8>, i: int) -> nat {
    (entry[i] + 0x100 * entry[i + 1] + 0x1_0000 * entry[i + 2] + 0x100_0000 * entry[i + 3]) as nat
}

/// Where the partition of an entry starts.
pub open spec fn entry_offset(entry: Seq<u8>) -> nat {
    little_endian(entry, 4)
}

/// How large the partition of an entry is.
pub open spec fn entry_size(entry: Seq<u8>) -> nat {
    little_endian(entry, 8)
}

/// Start and size of the first storage partition at or after entry `i` and before the end of the
/// table, which has room for 96 entries.
pub open spec fn nvs_partition(entries: Seq<Seq<u8>>, i: int) -> Option<(nat, nat)>
    decreases entries.len() - i,
{
    if i < 0 || i >= entries.len() || i >= 96 || is_end(entries[i]) {
        None
    } else if is_nvs(entries[i]) {
        Some((entry_offset(entries[i]), entry_size(entries[i])))
    } else {
        nvs_partition(entries, i + 1)
    }
}

/// `nvs_partition` is what its name says: it gives the place of an entry for storage before which
/// there is neither another one nor the end of the table, and nothing only if there is no such
/// entry.
pub proof fn nvs_partition_is_first(entries: Seq<Seq<u8>>, i: int)
    requires
        0 <= i,
    ensures
        match nvs_partition(entries, i) {
            Some(place) => exists|k: int|
                {
                    &&& i <= k < entries.len()
                    &&& k < 96
                    &&& is_nvs(entries[k])
                    &&& place == (entry_offset(entries[k]), entry_size(entries[k]))
                    &&& forall|j: int| i <= j <= k ==> !is_end(#[trigger] entries[j])
                    &&& forall|j: int| i <= j < k ==> !is_nvs(#[trigger] entries[j])
                },
            None => forall|k: int|
                i <= k < entries.len() && k < 96 && is_nvs(#[trigger] entries[k])
                    ==> exists|j: int| i <= j <= k && is_end(#[trigger] entries[j]),
        },
    decreases entries.len() - i,
{
    if i >= entries.len() || i >= 96 {
    } else if is_end(entries[i]) {
    } else if is_nvs(entries[i]) {
        assert(forall|j: int| i <= j <= i ==> !is_end(#[trigger] entries[j]));
    } else {
        nvs_partition_is_first(entries, i + 1);
        match nvs_partition(entries, i + 1) {
            Some(place) => {
                let k = choose|k: int|
                    {
                        &&& i + 1 <= k < entries.len()
                        &&& k < 96
                        &&& is_nvs(entries[k])
                        &&& place == (entry_offset(entries[k]), entry_size(entries[k]))
                        &&& forall|j: int| i + 1 <= j <= k ==> !is_end(#[trigger] entries[j])
                        &&& forall|j: int| i + 1 <= j < k ==> !is_nvs(#[trigger] entries[j])
                    };
                assert forall|j: int| i <= j <= k implies !is_end(#[trigger] entries[j]) by {}
                assert forall|j: int| i <= j < k implies !is_nvs(#[trigger] entries[j]) by {}
            },
            None => {},
        }
    }
}

/// An entry that was never written.
pub open spec fn unwritten() -> Seq<u8> {
    Seq::new(32, |i: int| 0xffu8)
}

/// A search through the partition table, one entry at a time.
pub struct PartitionScan {
    offset: u32,
    last: [u8; 32],
    found: Option<(u32, u32)>,
    ended: bool,
}

/// What a search knows.
pub struct ScanModel {
    /// How many entries were looked at.
    pub seen: int,
    /// The entry that was looked at last, and before the first one an entry that was never
    /// written.
    pub last: Seq<u8>,
    /// Start and size of the partition that was found.
    pub found: Option<(nat, nat)>,
    /// Whether the search is over.
    pub ended: bool,
}

impl ScanModel {
    /// A search that has not begun.
    pub open spec fn start() -> ScanModel {
        ScanModel { seen: 0, last: unwritten(), found: None, ended: false }
    }

    /// A search looks at no more than the 96 entries there is room for, and is over once it found
    /// something.
    pub open spec fn wf(self) -> bool {
        &&& 0 <= self.seen <= 96
        &&& self.found is Some ==> self.ended
    }

    /// Whether there is another entry to look at.
    pub open spec fn wants_entry(self) -> bool {
        !self.ended && self.seen < 96
    }

    /// After looking at an entry.
    pub open spec fn after_entry(self, entry: Seq<u8>) -> ScanModel {
        if is_end(entry) {
            ScanModel { seen: self.seen + 1, last: entry, ended: true, ..self }
        } else if is_nvs(entry) {
            ScanModel {
                seen: self.seen + 1,
                last: entry,
                found: Some((entry_offset(entry), entry_size(entry))),
                ended: true,
            }
        } else {
            ScanModel { seen: self.seen + 1, last: entry, ..self }
        }
    }
}

impl ScanModel {
    /// After the entries were offered in order, of which it looks at those that it wants.
    pub open spec fn after_entries(self, entries: Seq<Seq<u8>>) -> ScanModel
        decreases entries.len(),
    {
        if entries.len() == 0 {
            self
        } else {
            let before = self.after_entries(entries.drop_last());
            if before.wants_entry() {
                before.after_entry(entries.last())
            } else {
                before
            }
        }
    }
}

/// A search finds the first storage partition of the entries it was offered; and once it wants no
/// more of them, further entries would change nothing.
pub proof fn scan_finds_partition(entries: Seq<Seq<u8>>, further: Seq<Seq<u8>>)
    ensures
        ScanModel::start().after_entries(entries).found == nvs_partition(entries, 0),
        !ScanModel::start().after_entries(entries).wants_entry() ==> nvs_partition(
            entries + further,
            0,
        ) == nvs_partition(entries, 0),
{
    let n = entries.len() as int;
    scan_progress(entries, n);
    scan_progress(entries + further, n);
    assert(entries.take(n) =~= entries);
    assert((entries + further).take(n) =~= entries);
}

/// A search that was offered the first `n` entries is over and right, or has found nothing and
/// goes on with the next entry.
proof fn scan_progress(entries: Seq<Seq<u8>>, n: int)
    requires
        0 <= n <= entries.len(),
    ensures
        ({
            let m = ScanModel::start().after_entries(entries.take(n));
            if m.wants_entry() {
                &&& m.seen == n
                &&& m.found is None
                &&& nvs_partition(entries, 0) == nvs_partition(entries, n)
            } else {
                m.found == nvs_partition(entries, 0)
            }
        }),
    decreases n,
{
    if n > 0 {
        scan_progress(entries, n - 1);
        assert(entries.take(n).drop_last() =~= entries.take(n - 1));
    }
}

/// The entries that reads of the partition table leave in the entry buffer, which holds an
/// unwritten entry at first: a read that fails leaves what was there.
pub open spec fn left_by(reads: Seq<Option<[u8; 32]>>) -> Seq<Seq<u8>>
    decreases reads.len(),
{
    if reads.len() == 0 {
        Seq::empty()
    } else {
        let before = left_by(reads.drop_last());
        before.push(
            match reads.last() {
                Some(entry) => entry@,
                None => if before.len() == 0 {
                    unwritten()
                } else {
                    before.last()
                },
            },
        )
    }
}

/// Every read leaves one entry, and what it leaves does not depend on later reads.
proof fn left_by_grows(reads: Seq<Option<[u8; 32]>>, n: int)
    requires
        0 <= n <= reads.len(),
    ensures
        left_by(reads).len() == reads.len(),
        left_by(reads.take(n)) == left_by(reads).take(n),
    decreases reads.len(),
{
    if n == reads.len() {
        assert(reads.take(n) =~= reads);
        if n > 0 {
            left_by_grows(reads.drop_last(), n - 1);
        }
        assert(left_by(reads).take(n) =~= left_by(reads));
    } else {
        left_by_grows(reads.drop_last(), n);
        assert(reads.drop_last().take(n) =~= reads.take(n));
        assert(left_by(reads).take(n) =~= left_by(reads.drop_last()).take(n));
    }
}

impl ScanModel {
    /// After the entries were read in order, of which it looks at those that it wants; where the
    /// read failed, the one that was looked at last stands in.
    pub open spec fn after_reads(self, reads: Seq<Option<[u8; 32]>>) -> ScanModel
        decreases reads.len(),
    {
        if reads.len() == 0 {
            self
        } else {
            let before = self.after_reads(reads.drop_last());
            if before.wants_entry() {
                before.after_entry(
                    match reads.last() {
                        Some(entry) => entry@,
                        None => before.last,
                    },
                )
            } else {
                before
            }
        }
    }
}

/// A search that is told of reads, also of those that fail, finds the first storage partition of
/// the entries that the reads leave; and once it wants no more, further reads would change nothing.
pub proof fn scan_finds_partition_by_reads(
    reads: Seq<Option<[u8; 32]>>,
    further: Seq<Option<[u8; 32]>>,
)
    ensures
        ScanModel::start().after_reads(reads).found == nvs_partition(left_by(reads), 0),
        !ScanModel::start().after_reads(reads).wants_entry() ==> nvs_partition(
            left_by(reads + further),
            0,
        ) == nvs_partition(left_by(reads), 0),
{
    let n = reads.len() as int;
    reads_are_entries(reads);
    left_by_grows(reads + further, n);
    assert((reads + further).take(n) =~= reads);
    let all = left_by(reads + further);
    assert(all =~= left_by(reads) + all.skip(n));
    scan_finds_partition(left_by(reads), all.skip(n));
}

/// To a search, reads are the entries that they leave.
proof fn reads_are_entries(reads: Seq<Option<[u8; 32]>>)
    ensures
        ({
            let m = ScanModel::start().after_reads(reads);
            &&& m == ScanModel::start().after_entries(left_by(reads))
            &&& m.wants_entry() ==> m.last == (if reads.len() == 0 {
                unwritten()
            } else {
                left_by(reads).last()
            })
        }),
    decreases reads.len(),
{
    if reads.len() > 0 {
        let earlier = reads.drop_last();
        reads_are_entries(earlier);
        left_by_grows(earlier, earlier.len() as int);
        assert(left_by(reads).drop_last() =~= left_by(earlier));
    }
}

/// A read that fails before any other one worked is the end of the table: nothing is found,
/// whatever the table holds, and no further entry is wanted.
pub proof fn failed_first_read_ends_the_table(reads: Seq<Option<[u8; 32]>>)
    requires
        reads.len() > 0,
        reads[0] is None,
    ensures
        nvs_partition(left_by(reads), 0) is None,
        !ScanModel::start().after_entry(ScanModel::start().last).wants_entry(),
        ScanModel::start().after_entry(ScanModel::start().last).found is None,
{
    let first = reads.take(1);
    left_by_grows(reads, 1);
    assert(first.drop_last() =~= Seq::<Option<[u8; 32]>>::empty());
    assert(left_by(first.drop_last()).len() == 0);
    assert(left_by(first)[0] == unwritten());
    assert(left_by(reads)[0] == left_by(reads).take(1)[0]);
    assert(is_end(left_by(reads)[0]));
}

/// Start and size as numbers.
pub open spec fn place(found: Option<(u32, u32)>) -> Option<(nat, nat)> {
    match found {
        Some((offset, size)) => Some((offset as nat, size as nat)),
        None => None,
    }
}

impl View for PartitionScan {
    type V = ScanModel;

    closed spec fn view(&self) -> ScanModel {
        ScanModel {
            seen: if self.offset % 32 == 0 {
                self.offset as int / 32
            } else {
                -1
            },
            last: self.last@,
            found: place(self.found),
            ended: self.ended,
        }
    }
}

/// Whether an entry was never written.
fn entry_is_end(entry: &[u8; 32]) -> (r: bool)
    ensures
        r == is_end(entry@),
{
    let mut i: usize = 0;
    while i < 32
        invariant
            i <= 32,
            forall|j: int| 0 <= j < i ==> entry@[j] == 0xff,
        decreases 32 - i,
    {
        if entry[i] != 0xff {
            return false;
        }
        i += 1;
    }
    true
}

/// The number that four bytes of an entry write, the least significant first.
fn read_little_endian(entry: &[u8; 32], i: usize) -> (r: u32)
    requires
        i <= 28,
    ensures
        r == little_endian(entry@, i as int),
{
    entry[i] as u32 + 0x100 * (entry[i + 1] as u32) + 0x1_0000 * (entry[i + 2] as u32) + 0x100_0000
        * (entry[i + 3] as u32)
}

impl PartitionScan {
    /// A search that has not begun.
    pub fn new() -> (r: PartitionScan)
        ensures
            r@ == ScanModel::start(),
            r@.wf(),
    {
        let last: [u8; 32] = [0xff; 32];
        assert(last@ =~= unwritten());
        PartitionScan { offset: 0, last, found: None, ended: false }
    }

    /// The flash address of the next entry to look at, if there is one.
    pub fn next_address(&self) -> (r: Option<u32>)
        requires
            self@.wf(),
        ensures
            match r {
                Some(address) => {
                    &&& self@.wants_entry()
                    &&& address == PART_OFFSET + PART_ENTRY_SIZE * self@.seen
                    &&& address == 0x8000 + 32 * self@.seen
                },
                None => !self@.wants_entry(),
            },
    {
        if !self.ended && self.offset < PART_SIZE {
            Some(PART_OFFSET + self.offset)
        } else {
            None
        }
    }

    /// Looks at the next entry.
    pub fn entry(&mut self, entry: &[u8; 32])
        requires
            old(self)@.wf(),
            old(self)@.wants_entry(),
        ensures
            final(self)@ == old(self)@.after_entry(entry@),
            final(self)@.wf(),
    {
        self.offset = self.offset + PART_ENTRY_SIZE;
        self.last = *entry;
        if entry_is_end(entry) {
            self.ended = true;
        } else if entry[0] == 0xaa && entry[1] == 0x50 && entry[2] == 1 && entry[3] == 2 {
            self.found = Some((read_little_endian(entry, 4), read_little_endian(entry, 8)));
            self.ended = true;
        }
    }

    /// The next entry could not be read: the one that was looked at last stands in for it.
    pub fn entry_failed(&mut self)
        requires
            old(self)@.wf(),
            old(self)@.wants_entry(),
        ensures
            final(self)@ == old(self)@.after_entry(old(self)@.last),
            final(self)@.wf(),
    {
        let last = self.last;
        self.entry(&last);
    }

    /// Start and size of the partition that was found.
    pub fn found(&self) -> (r: Option<(usize, usize)>)
        ensures
            match r {
                Some((offset, size)) => self@.found == Some((offset as nat, size as nat)),
                None => self@.found is None,
            },
    {
        match self.found {
            Some((offset, size)) => Some((offset as usize, size as usize)),
            None => None,
        }
    }
}

/// The counter of storage handles, `portable_atomic::AtomicU8`.
#[verifier::external_type_specification]
#[verifier::external_body]
pub struct ExAtomicU8(AtomicU8);

/// The number that a counter shows.
pub uninterp spec fn shown(counter: AtomicU8) -> u8;

/// The number after `count`; behind the largest follows zero.
pub open spec fn one_more(count: u8) -> u8 {
    if count == 255 {
        0
    } else {
        (count + 1) as u8
    }
}

/// The number before `count`; before zero stands the largest.
pub open spec fn one_less(count: u8) -> u8 {
    if count == 0 {
        255
    } else {
        (count - 1) as u8
    }
}

/// The number that the counter shows.
///
/// Calls `portable_atomic::AtomicU8::load`. The counter is borrowed exclusively, so nobody else
/// changes it meanwhile; the call gives its number and leaves it as it is.
#[verifier::external_body]
fn load(counter: &mut AtomicU8) -> (r: u8)
    ensures
        r == shown(*old(counter)),
        shown(*final(counter)) == shown(*old(counter)),
{
    counter.load(Ordering::Relaxed)
}

/// Counts one more; the result is the number before.
///
/// Calls `portable_atomic::AtomicU8::fetch_add`. The counter is borrowed exclusively, so nobody
/// else changes it meanwhile; the call adds one, wrapping around, and gives the number before.
#[verifier::external_body]
fn add_one(counter: &mut AtomicU8) -> (r: u8)
    ensures
        r == shown(*old(counter)),
        shown(*final(counter)) == one_more(shown(*old(counter))),
{
    counter.fetch_add(1, Ordering::Relaxed)
}

/// Counts one less; the result is the number before.
///
/// Calls `portable_atomic::AtomicU8::fetch_sub`. The counter is borrowed exclusively, so nobody
/// else changes it meanwhile; the call subtracts one, wrapping around, and gives the number before.
#[verifier::external_body]
fn subtract_one(counter: &mut AtomicU8) -> (r: u8)
    ensures
        r == shown(*old(counter)),
        shown(*final(counter)) == one_less(shown(*old(counter))),
{
    counter.fetch_sub(1, Ordering::Relaxed)
}

/// Whether opening the storage is refused while the counter shows `count`: as soon as it counts
/// anything.
pub open spec fn is_refused(count: u8) -> bool {
    count > 0
}

/// What the counter shows after an attempt to open the storage: an attempt that is not refused is
/// counted, whether it then works or not.
pub open spec fn after_new(count: u8) -> u8 {
    if is_refused(count) {
        count
    } else {
        one_more(count)
    }
}

/// Whether the storage may be opened while the counter shows `count`.
pub fn may_open(count: u8) -> (r: Result<(), WmError>)
    ensures
        r == (if is_refused(count) {
            Err::<(), WmError>(WmError::Other)
        } else {
            Ok::<(), WmError>(())
        }),
{
    if count > 0 {
        Err(WmError::Other)
    } else {
        Ok(())
    }
}

/// Asks whether the storage may be opened, and counts the attempt if so.
pub fn reserve(counter: &mut AtomicU8) -> (r: Result<(), WmError>)
    ensures
        r == (if is_refused(shown(*old(counter))) {
            Err::<(), WmError>(WmError::Other)
        } else {
            Ok::<(), WmError>(())
        }),
        shown(*final(counter)) == after_new(shown(*old(counter))),
{
    let count = load(counter);
    let r = may_open(count);
    if r.is_ok() {
        let _ = add_one(counter);
    }
    r
}

/// A handle on the storage. What it opens, `T`, is shared by its copies.
pub struct Nvs<T> {
    inner: T,
    offset: usize,
    size: usize,
}

/// What a handle knows.
pub struct NvsModel<T> {
    pub inner: T,
    pub offset: int,
    pub size: int,
}

impl<T> View for Nvs<T> {
    type V = NvsModel<T>;

    closed spec fn view(&self) -> NvsModel<T> {
        NvsModel { inner: self.inner, offset: self.offset as int, size: self.size as int }
    }
}

/// Whether `r` is what opening the storage at a place comes to, when `opened` came of opening it.
pub open spec fn opened_as<T>(
    r: Result<Nvs<T>, WmError>,
    opened: Result<T, esp_nvs::error::Error>,
    offset: usize,
    size: usize,
) -> bool {
    match opened {
        Ok(inner) => r matches Ok(nvs) && nvs@ == (NvsModel {
            inner,
            offset: offset as int,
            size: size as int,
        }),
        Err(e) => r == Err::<Nvs<T>, WmError>(WmError::NvsError(e)),
    }
}

/// Whether `r` is what an attempt to open the storage at a place comes to while the counter shows
/// `count`: it is refused, or it is what came of opening the storage there with `open`.
pub open spec fn is_new<T, F: FnOnce(usize, usize) -> Result<T, esp_nvs::error::Error>>(
    r: Result<Nvs<T>, WmError>,
    count: u8,
    offset: usize,
    size: usize,
    open: F,
) -> bool {
    if is_refused(count) {
        r == Err::<Nvs<T>, WmError>(WmError::Other)
    } else {
        exists|opened: Result<T, esp_nvs::error::Error>|
            open.ensures((offset, size), opened) && #[trigger] opened_as(r, opened, offset, size)
    }
}

impl<T> Nvs<T> {
    /// A handle from what came of opening the storage.
    pub fn from_opened(
        opened: Result<T, esp_nvs::error::Error>,
        offset: usize,
        size: usize,
    ) -> (r: Result<Nvs<T>, WmError>)
        ensures
            opened_as(r, opened, offset, size),
    {
        match opened {
            Ok(inner) => Ok(Nvs { inner, offset, size }),
            Err(e) => Err(WmError::from(e)),
        }
    }

    /// Opens the storage at a place, without asking whether it is open already. There should be
    /// only one who opened it.
    pub fn new_unchecked<F: FnOnce(usize, usize) -> Result<T, esp_nvs::error::Error>>(
        flash_offset: usize,
        flash_size: usize,
        open: F,
    ) -> (r: Result<Nvs<T>, WmError>)
        requires
            open.requires((flash_offset, flash_size)),
        ensures
            exists|opened: Result<T, esp_nvs::error::Error>|
                open.ensures((flash_offset, flash_size), opened) && #[trigger] opened_as(
                    r,
                    opened,
                    flash_offset,
                    flash_size,
                ),
    {
        let opened = open(flash_offset, flash_size);
        Nvs::from_opened(opened, flash_offset, flash_size)
    }

    /// Opens the storage at a place, unless `counter` counts something already. The attempt is
    /// counted before the storage is opened, and stays counted if that fails. A refused attempt
    /// does not call `open`, which then need not be callable.
    pub fn new<F: FnOnce(usize, usize) -> Result<T, esp_nvs::error::Error>>(
        flash_offset: usize,
        flash_size: usize,
        counter: &mut AtomicU8,
        open: F,
    ) -> (r: Result<Nvs<T>, WmError>)
        requires
            !is_refused(shown(*old(counter))) ==> open.requires((flash_offset, flash_size)),
        ensures
            is_new(r, shown(*old(counter)), flash_offset, flash_size, open),
            shown(*final(counter)) == after_new(shown(*old(counter))),
            shown(*old(counter)) > 0 ==> r == Err::<Nvs<T>, WmError>(WmError::Other) && shown(
                *final(counter),
            ) == shown(*old(counter)),
            shown(*old(counter)) == 0 ==> shown(*final(counter)) == 1,
    {
        match reserve(counter) {
            Err(e) => Err(e),
            Ok(()) => Nvs::new_unchecked(flash_offset, flash_size, open),
        }
    }

    /// Start and size of the storage partition, given what came of reading the entries of the
    /// partition table: nothing where the read failed.
    pub fn read_nvs_partition_offset(reads: &Vec<Option<[u8; 32]>>) -> (r: Option<(usize, usize)>)
        ensures
            match r {
                Some((offset, size)) => nvs_partition(left_by(reads@), 0) == Some(
                    (offset as nat, size as nat),
                ),
                None => nvs_partition(left_by(reads@), 0) is None,
            },
    {
        let ghost all = left_by(reads@);
        let mut scan = PartitionScan::new();
        let mut i: usize = 0;
        proof {
            left_by_grows(reads@, 0);
        }
        while i < reads.len() && scan.next_address().is_some()
            invariant
                all == left_by(reads@),
                all.len() == reads@.len(),
                i <= reads@.len(),
                scan@.wf(),
                scan@.seen == i,
                scan@.last == (if i == 0 {
                    unwritten()
                } else {
                    all[i - 1]
                }),
                scan@.ended ==> nvs_partition(all, 0) == scan@.found,
                !scan@.ended ==> scan@.found is None && nvs_partition(all, 0) == nvs_partition(
                    all,
                    i as int,
                ),
            decreases reads@.len() - i,
        {
            proof {
                let upto = reads@.take(i + 1);
                left_by_grows(reads@, i as int);
                left_by_grows(reads@, i + 1);
                assert(upto.drop_last() =~= reads@.take(i as int));
                assert(all[i as int] == left_by(upto)[i as int]);
                if i > 0 {
                    assert(left_by(reads@.take(i as int)).last() == all[i - 1]);
                }
            }
            match &reads[i] {
                Some(entry) => {
                    assert(all[i as int] == entry@);
                    scan.entry(entry);
                },
                None => {
                    assert(all[i as int] == scan@.last);
                    scan.entry_failed();
                },
            }
            i += 1;
        }
        scan.found()
    }

    /// Opens the storage at the place that the partition table gives, unless `counter` counts
    /// something already; `reads` is what came of reading the entries of the table.
    pub fn new_from_part_table<F: FnOnce(usize, usize) -> Result<T, esp_nvs::error::Error>>(
        reads: &Vec<Option<[u8; 32]>>,
        counter: &mut AtomicU8,
        open: F,
    ) -> (r: Result<Nvs<T>, WmError>)
        requires
            forall|offset: usize, size: usize|
                nvs_partition(left_by(reads@), 0) == Some((offset as nat, size as nat))
                    && !is_refused(shown(*old(counter))) ==> #[trigger] open.requires(
                    (offset, size),
                ),
        ensures
            match nvs_partition(left_by(reads@), 0) {
                Some(place) => {
                    &&& exists|offset: usize, size: usize|
                        place == (offset as nat, size as nat) && #[trigger] is_new(
                            r,
                            shown(*old(counter)),
                            offset,
                            size,
                            open,
                        )
                    &&& shown(*final(counter)) == after_new(shown(*old(counter)))
                },
                None => {
                    &&& r == Err::<Nvs<T>, WmError>(WmError::Other)
                    &&& shown(*final(counter)) == shown(*old(counter))
                },
            },
    {
        match Nvs::<T>::read_nvs_partition_offset(reads) {
            Some((offset, size)) => Nvs::new(offset, size, counter, open),
            None => Err(WmError::Other),
        }
    }

    /// A handle on storage that is open already.
    pub fn new_from_nvs(nvs: T, offset: usize, size: usize, counter: &mut AtomicU8) -> (r: Nvs<T>)
        ensures
            r@ == (NvsModel { inner: nvs, offset: offset as int, size: size as int }),
            shown(*final(counter)) == one_more(shown(*old(counter))),
    {
        let _ = add_one(counter);
        Nvs { inner: nvs, offset, size }
    }

    /// The open storage.
    pub fn inner(&self) -> (r: &T)
        ensures
            *r == self@.inner,
    {
        &self.inner
    }

    /// Another handle on the same storage.
    pub fn clone(&self, counter: &mut AtomicU8) -> (r: Nvs<T>) where T: Clone
        ensures
            shown(*final(counter)) == one_more(shown(*old(counter))),
            cloned(self@.inner, r@.inner),
            r@.offset == self@.offset,
            r@.size == self@.size,
    {
        let _ = add_one(counter);
        Nvs { inner: self.inner.clone(), offset: self.offset, size: self.size }
    }

    /// Gives the handle back; the storage it was on goes to the caller.
    pub fn release(self, counter: &mut AtomicU8) -> (r: T)
        ensures
            r == self@.inner,
            shown(*final(counter)) == one_less(shown(*old(counter))),
    {
        let _ = subtract_one(counter);
        self.inner
    }
}

/// Something that is done with handles on the storage.
pub enum HandleEvent {
    /// `Nvs::new`, with the flag saying whether the storage opens if the attempt is not refused.
    New(bool),
    /// `Nvs::new_unchecked`, with the flag saying whether the storage opens.
    NewUnchecked(bool),
    /// `Nvs::new_from_nvs` or `Nvs::clone`.
    Share,
    /// `Nvs::release`.
    Release,
}

/// The handles there are, and the counter beside them.
pub struct HandleModel {
    /// What the counter shows.
    pub count: u8,
    /// How many handles there are.
    pub live: int,
    /// How many counted attempts to open the storage failed.
    pub failed: int,
    /// How many handles were opened without being counted.
    pub unchecked: int,
}

impl HandleModel {
    /// No handles, and a counter that shows zero.
    pub open spec fn start() -> HandleModel {
        HandleModel { count: 0, live: 0, failed: 0, unchecked: 0 }
    }

    /// Only a handle that there is can be given back.
    pub open spec fn allows(self, event: HandleEvent) -> bool {
        event is Release ==> self.live > 0
    }

    /// After an event.
    pub open spec fn step(self, event: HandleEvent) -> HandleModel {
        match event {
            HandleEvent::New(opens) => {
                let after = HandleModel { count: after_new(self.count), ..self };
                if is_refused(self.count) {
                    after
                } else if opens {
                    HandleModel { live: self.live + 1, ..after }
                } else {
                    HandleModel { failed: self.failed + 1, ..after }
                }
            },
            HandleEvent::NewUnchecked(opens) => if opens {
                HandleModel { live: self.live + 1, unchecked: self.unchecked + 1, ..self }
            } else {
                self
            },
            HandleEvent::Share => HandleModel {
                count: one_more(self.count),
                live: self.live + 1,
                ..self
            },
            HandleEvent::Release => HandleModel {
                count: one_less(self.count),
                live: self.live - 1,
                ..self
            },
        }
    }

    /// After a history of events.
    pub open spec fn run(self, events: Seq<HandleEvent>) -> HandleModel
        decreases events.len(),
    {
        if events.len() == 0 {
            self
        } else {
            self.run(events.drop_last()).step(events.last())
        }
    }

    /// Whether each event of a history could happen when it did.
    pub open spec fn allows_all(self, events: Seq<HandleEvent>) -> bool
        decreases events.len(),
    {
        events.len() == 0 || {
            &&& self.allows_all(events.drop_last())
            &&& self.run(events.drop_last()).allows(events.last())
        }
    }

    /// Whether the counter agrees with the handles: it shows, modulo 256, how many there are, and
    /// besides the attempts that failed, but not the handles that were opened without being
    /// counted.
    pub open spec fn agrees(self) -> bool {
        &&& self.live >= 0
        &&& self.failed >= 0
        &&& self.unchecked >= 0
        &&& self.count == (self.live + self.failed - self.unchecked) % 256
    }
}

/// The counter agrees with the handles after every history. So as long as no attempt to open the
/// storage failed, no handle was opened without being counted, and there are no more than 255, it
/// shows the number of handles, and opening is refused exactly while there is one.
pub proof fn counter_shows_live_handles(events: Seq<HandleEvent>)
    requires
        HandleModel::start().allows_all(events),
    ensures
        ({
            let m = HandleModel::start().run(events);
            &&& m.agrees()
            &&& m.failed == 0 && m.unchecked == 0 && m.live < 256 ==> {
                &&& m.count == m.live
                &&& is_refused(m.count) <==> m.live > 0
            }
        }),
    decreases events.len(),
{
    if events.len() > 0 {
        counter_shows_live_handles(events.drop_last());
    }
}

/// An attempt to open the storage that fails, though it was not refused, stays counted: the
/// counter shows one, and every further attempt is refused and leaves it so.
pub proof fn failed_opening_stays_counted(m: HandleModel, opens: bool)
    requires
        !is_refused(m.count),
    ensures
        m.step(HandleEvent::New(false)).count == 1,
        m.step(HandleEvent::New(false)).live == m.live,
        is_refused(m.step(HandleEvent::New(false)).count),
        m.step(HandleEvent::New(false)).step(HandleEvent::New(opens)) == m.step(
            HandleEvent::New(false),
        ),
{
}

/// Giving back a handle that was shared restores the counter.
pub proof fn release_undoes_share(m: HandleModel)
    ensures
        m.step(HandleEvent::Share).step(HandleEvent::Release) == m,
{
}

/// How often a history shares a handle.
pub open spec fn shares(events: Seq<HandleEvent>) -> int
    decreases events.len(),
{
    if events.len() == 0 {
        0
    } else {
        shares(events.drop_last()) + if events.last() is Share {
            1int
        } else {
            0
        }
    }
}

/// How often a history gives a handle back.
pub open spec fn releases(events: Seq<HandleEvent>) -> int
    decreases events.len(),
{
    if events.len() == 0 {
        0
    } else {
        releases(events.drop_last()) + if events.last() is Release {
            1int
        } else {
            0
        }
    }
}

/// From the first opening on, while its handle and the ones made from it are shared fewer than 255
/// times and given back in any order, the counter shows how many are left. Opening is refused
/// until the last one was given back, and from then on it is not.
pub proof fn one_opening_at_a_time(events: Seq<HandleEvent>)
    requires
        HandleModel::start().step(HandleEvent::New(true)).allows_all(events),
        forall|i: int|
            0 <= i < events.len() ==> #[trigger] events[i] is Share || events[i] is Release,
        shares(events) < 255,
    ensures
        ({
            let m = HandleModel::start().step(HandleEvent::New(true)).run(events);
            &&& m.live == 1 + shares(events) - releases(events)
            &&& m.live >= 0
            &&& m.count == m.live
            &&& is_refused(m.count) <==> releases(events) <= shares(events)
        }),
    decreases events.len(),
{
    if events.len() > 0 {
        let earlier = events.drop_last();
        assert forall|i: int| 0 <= i < earlier.len() implies #[trigger] earlier[i] is Share
            || earlier[i] is Release by {
            assert(earlier[i] == events[i]);
        }
        assert(events.last() is Share || events.last() is Release);
        releases_counted(earlier);
        one_opening_at_a_time(earlier);
    }
}

/// A history gives back no negative number of handles.
proof fn releases_counted(events: Seq<HandleEvent>)
    ensures
        releases(events) >= 0,
    decreases events.len(),
{
    if events.len() > 0 {
        releases_counted(events.drop_last());
    }
}

/// The name of a namespace or an entry, `esp_nvs::Key`: sixteen bytes.
#[verifier::external_type_specification]
#[verifier::external_body]
pub struct ExKey(Key);

/// The bytes of a name.
pub uninterp spec fn key_bytes(key: Key) -> Seq<u8>;

/// The namespace under which the WiFi manager keeps its entries.
pub open spec fn namespace() -> Seq<char> {
    "wifimanager"@
}

/// A text that can name an entry: at most fifteen ASCII characters, none of them the null
/// character.
pub open spec fn is_name(s: Seq<char>) -> bool {
    s.len() <= 15 && forall|i: int| 0 <= i < s.len() ==> '\0' < #[trigger] s[i] < '\u{80}'
}

/// The bytes of a name: its characters, and null bytes up to sixteen.
pub open spec fn padded(s: Seq<char>) -> Seq<u8> {
    Seq::new(
        16,
        |i: int|
            if i < s.len() {
                s[i] as u8
            } else {
                0u8
            },
    )
}

/// The name that a text writes.
///
/// Calls `esp_nvs::Key::from_str`. Of a text of at most fifteen ASCII characters without the null
/// character it makes the bytes of that text, filled up with null bytes to sixteen; on any other
/// text it panics.
#[verifier::external_body]
fn key_from_str(s: &str) -> (r: Key)
    requires
        is_name(s@),
    ensures
        key_bytes(r) == padded(s@),
{
    Key::from_str(s)
}

/// Whether a text can name an entry.
pub fn can_name(s: &str) -> (r: bool)
    ensures
        r == is_name(s@),
{
    let v = text::chars_of(s);
    if v.len() > 15 {
        return false;
    }
    let mut i: usize = 0;
    while i < v.len()
        invariant
            v@ == s@,
            i <= v@.len() <= 15,
            forall|j: int| 0 <= j < i ==> '\0' < #[trigger] s@[j] < '\u{80}',
        decreases v@.len() - i,
    {
        if !('\0' < v[i] && v[i] < '\u{80}') {
            return false;
        }
        i += 1;
    }
    true
}

/// Where the entry with a given name is kept: its namespace and its name, as the storage wants
/// them.
pub fn entry_address(key: &str) -> (r: (Key, Key))
    requires
        is_name(key@),
    ensures
        key_bytes(r.0) == padded(namespace()),
        key_bytes(r.1) == padded(key@),
{
    proof {
        reveal_strlit("wifimanager");
    }
    (key_from_str("wifimanager"), key_from_str(key))
}

/// The result of an access to the storage, with the error as the WiFi manager reports it.
pub open spec fn reported<R>(got: Result<R, esp_nvs::error::Error>) -> Result<R, WmError> {
    match got {
        Ok(value) => Ok(value),
        Err(e) => Err(WmError::NvsError(e)),
    }
}

/// Reports the result of an access to the storage.
pub fn report<R>(got: Result<R, esp_nvs::error::Error>) -> (r: Result<R, WmError>)
    ensures
        r == reported(got),
{
    match got {
        Ok(value) => Ok(value),
        Err(e) => Err(WmError::from(e)),
    }
}

/// Whether a namespace and a name are the address of the entry with a given name.
pub open spec fn is_address(namespace_key: Key, entry_key: Key, key: Seq<char>) -> bool {
    key_bytes(namespace_key) == padded(namespace()) && key_bytes(entry_key) == padded(key)
}

impl<T> Nvs<T> {
    /// Reads the entry with a given name: `read` is handed the open storage, the namespace and the
    /// name, and its result is reported.
    pub fn get<R, F: FnOnce(&T, Key, Key) -> Result<R, esp_nvs::error::Error>>(
        &self,
        key: &str,
        read: F,
    ) -> (r: Result<R, WmError>)
        requires
            is_name(key@),
            forall|n: Key, k: Key| is_address(n, k, key@) ==> read.requires((&self@.inner, n, k)),
        ensures
            exists|n: Key, k: Key, got: Result<R, esp_nvs::error::Error>|
                is_address(n, k, key@) && #[trigger] read.ensures((&self@.inner, n, k), got) && r
                    == reported(got),
    {
        let (n, k) = entry_address(key);
        assert(is_address(n, k, key@));
        let got = read(&self.inner, n, k);
        report(got)
    }

    /// Writes the entry with a given name: `write` is handed the open storage, the namespace, the
    /// name and the value, and its result is reported.
    pub fn set<R, F: FnOnce(&T, Key, Key, R) -> Result<(), esp_nvs::error::Error>>(
        &self,
        key: &str,
        value: R,
        write: F,
    ) -> (r: Result<(), WmError>)
        requires
            is_name(key@),
            forall|n: Key, k: Key|
                is_address(n, k, key@) ==> write.requires((&self@.inner, n, k, value)),
        ensures
            exists|n: Key, k: Key, got: Result<(), esp_nvs::error::Error>|
                is_address(n, k, key@) && #[trigger] write.ensures(
                    (&self@.inner, n, k, value),
                    got,
                ) && r == reported(got),
    {
        let (n, k) = entry_address(key);
        assert(is_address(n, k, key@));
        let got = write(&self.inner, n, k, value);
        report(got)
    }

    /// Deletes the entry with a given name: `delete` is handed the open storage, the namespace and
    /// the name, and its result is reported.
    pub fn delete<F: FnOnce(&T, Key, Key) -> Result<(), esp_nvs::error::Error>>(
        &self,
        key: &str,
        delete: F,
    ) -> (r: Result<(), WmError>)
        requires
            is_name(key@),
            forall|n: Key, k: Key|
                is_address(n, k, key@) ==> delete.requires((&self@.inner, n, k)),
        ensures
            exists|n: Key, k: Key, got: Result<(), esp_nvs::error::Error>|
                is_address(n, k, key@) && #[trigger] delete.ensures((&self@.inner, n, k), got) && r
                    == reported(got),
    {
        let (n, k) = entry_address(key);
        assert(is_address(n, k, key@));
        let got = delete(&self.inner, n, k);
        report(got)
    }
}

/// Different names have different addresses.
pub proof fn names_do_not_collide(a: Seq<char>, b: Seq<char>)
    requires
        is_name(a),
        is_name(b),
        padded(a) == padded(b),
    ensures
        a == b,
{
    assert forall|i: int| 0 <= i < 16 implies padded(a)[i] == padded(b)[i] by {}
    if a.len() < b.len() {
        let i = a.len() as int;
        assert(padded(a)[i] == 0u8);
        assert('\0' < b[i] < '\u{80}');
    }
    if b.len() < a.len() {
        let i = b.len() as int;
        assert(padded(b)[i] == 0u8);
        assert('\0' < a[i] < '\u{80}');
    }
    assert forall|i: int| 0 <= i < a.len() implies a[i] == b[i] by {
        assert('\0' < a[i] < '\u{80}');
        assert('\0' < b[i] < '\u{80}');
        assert(padded(a)[i] == a[i] as u8 && padded(b)[i] == b[i] as u8);
        assert(a[i] as u8 as int == a[i] as int && b[i] as u8 as int == b[i] as int);
    }
    assert(a =~= b);
}

/// Looking at an entry: its first four bytes decide whether it is taken, whatever the others hold,
/// and then its place and size are the four bytes behind them and the four behind those, the least
/// significant first. An entry of nothing but 0xff ends the search, and any other is passed over.
pub proof fn entries_are_taken_by_their_first_bytes(m: ScanModel, entry: Seq<u8>)
    requires
        entry.len() == 32,
    ensures
        entry.take(4) == seq![0xaau8, 0x50u8, 1u8, 2u8] ==> {
            let after = m.after_entry(entry);
            &&& after.ended
            &&& after.found == Some(
                (
                    (entry[4] + 256 * entry[5] + 65536 * entry[6] + 16777216 * entry[7]) as nat,
                    (entry[8] + 256 * entry[9] + 65536 * entry[10] + 16777216 * entry[11]) as nat,
                ),
            )
        },
        (forall|i: int| 0 <= i < 32 ==> #[trigger] entry[i] == 0xff) ==> {
            let after = m.after_entry(entry);
            &&& after.ended
            &&& after.found == m.found
        },
        entry.take(4) != seq![0xaau8, 0x50u8, 1u8, 2u8] && (exists|i: int|
            0 <= i < 32 && #[trigger] entry[i] != 0xff) ==> {
            let after = m.after_entry(entry);
            &&& after.ended == m.ended
            &&& after.found == m.found
        },
        m.after_entry(entry).seen == m.seen + 1,
        m.after_entry(entry).last == entry,
{
    let mark = seq![0xaau8, 0x50u8, 1u8, 2u8];
    let t = entry.take(4);
    assert(t[0] == entry[0] && t[1] == entry[1] && t[2] == entry[2] && t[3] == entry[3]);
    if t == mark {
        assert(mark[0] == 0xaau8 && mark[1] == 0x50u8 && mark[2] == 1u8 && mark[3] == 2u8);
        assert(entry[0] != 0xff);
    }
    if is_nvs(entry) {
        assert(t =~= mark);
    }
}

/// A search begins with the first of 96 entries, having found nothing, and with an unwritten entry
/// as the last one. It wants entries until it has ended or looked at all of them.
pub proof fn searches_look_at_96_entries(m: ScanModel)
    ensures
        ScanModel::start().seen == 0,
        !ScanModel::start().ended,
        ScanModel::start().found is None,
        ScanModel::start().last == Seq::new(32, |i: int| 0xffu8),
        m.wants_entry() <==> !m.ended && m.seen < 96,
{
}

/// The partition is that of the first entry with the mark of the storage, among the first 96, if
/// no entry of nothing but 0xff stands before it.
pub proof fn partition_is_that_of_the_first_marked_entry(entries: Seq<Seq<u8>>, k: int)
    requires
        0 <= k < entries.len(),
        k < 96,
        entries[k].len() >= 12,
        entries[k].take(4) == seq![0xaau8, 0x50u8, 1u8, 2u8],
        forall|j: int|
            0 <= j < k ==> (#[trigger] entries[j]).len() >= 32 && entries[j].take(4) != seq![
                0xaau8,
                0x50u8,
                1u8,
                2u8,
            ] && exists|i: int| 0 <= i < 32 && #[trigger] entries[j][i] != 0xff,
    ensures
        ({
            let e = entries[k];
            nvs_partition(entries, 0) == Some(
                (
                    (e[4] + 256 * e[5] + 65536 * e[6] + 16777216 * e[7]) as nat,
                    (e[8] + 256 * e[9] + 65536 * e[10] + 16777216 * e[11]) as nat,
                ),
            )
        }),
{
    partition_from(entries, 0, k);
}

/// The search from entry `i` on comes to entry `k`.
proof fn partition_from(entries: Seq<Seq<u8>>, i: int, k: int)
    requires
        0 <= i <= k < entries.len(),
        k < 96,
        entries[k].len() >= 12,
        entries[k].take(4) == seq![0xaau8, 0x50u8, 1u8, 2u8],
        forall|j: int|
            i <= j < k ==> (#[trigger] entries[j]).len() >= 32 && entries[j].take(4) != seq![
                0xaau8,
                0x50u8,
                1u8,
                2u8,
            ] && exists|b: int| 0 <= b < 32 && #[trigger] entries[j][b] != 0xff,
    ensures
        nvs_partition(entries, i) == Some((entry_offset(entries[k]), entry_size(entries[k]))),
    decreases k - i,
{
    let mark = seq![0xaau8, 0x50u8, 1u8, 2u8];
    let e = entries[i];
    let t = e.take(4);
    assert(t[0] == e[0] && t[1] == e[1] && t[2] == e[2] && t[3] == e[3]);
    if i == k {
        assert(mark[0] == 0xaau8 && mark[1] == 0x50u8 && mark[2] == 1u8 && mark[3] == 2u8);
        assert(e[0] != 0xff);
    } else {
        if is_nvs(e) {
            assert(t =~= mark);
        }
        partition_from(entries, i + 1, k);
    }
}

/// No partition is found when every marked entry among the first 96 has an entry of nothing but
/// 0xff before it.
pub proof fn no_partition_behind_the_end(entries: Seq<Seq<u8>>)
    requires
        forall|k: int| 0 <= k < entries.len() ==> (#[trigger] entries[k]).len() == 32,
        forall|k: int|
            0 <= k < entries.len() && k < 96 && (#[trigger] entries[k]).take(4) == seq![
                0xaau8,
                0x50u8,
                1u8,
                2u8,
            ] ==> exists|j: int|
                0 <= j < k && #[trigger] entries[j] == Seq::new(32, |i: int| 0xffu8),
    ensures
        nvs_partition(entries, 0) is None,
{
    nvs_partition_is_first(entries, 0);
    let mark = seq![0xaau8, 0x50u8, 1u8, 2u8];
    match nvs_partition(entries, 0) {
        Some(place) => {
            let k = choose|k: int|
                {
                    &&& 0 <= k < entries.len()
                    &&& k < 96
                    &&& is_nvs(entries[k])
                    &&& place == (entry_offset(entries[k]), entry_size(entries[k]))
                    &&& forall|j: int| 0 <= j <= k ==> !is_end(#[trigger] entries[j])
                    &&& forall|j: int| 0 <= j < k ==> !is_nvs(#[trigger] entries[j])
                };
            assert(entries[k].take(4) =~= mark);
            let j = choose|j: int|
                0 <= j < k && #[trigger] entries[j] == Seq::new(32, |i: int| 0xffu8);
            assert(is_end(entries[j]));
        },
        None => {},
    }
}

/// A read that works leaves what it read; one that fails leaves what was there before, which is at
/// first an entry of nothing but 0xff.
pub proof fn failed_reads_leave_the_entry_before(reads: Seq<Option<[u8; 32]>>, i: int)
    requires
        0 <= i < reads.len(),
    ensures
        left_by(reads).len() == reads.len(),
        reads[i] matches Some(entry) ==> left_by(reads)[i] == entry@,
        reads[i] is None && i > 0 ==> left_by(reads)[i] == left_by(reads)[i - 1],
        reads[i] is None && i == 0 ==> left_by(reads)[i] == Seq::new(32, |b: int| 0xffu8),
{
    let upto = reads.take(i + 1);
    left_by_grows(reads, i);
    left_by_grows(reads, i + 1);
    assert(upto.drop_last() =~= reads.take(i));
    assert(upto.last() == reads[i]);
    assert(left_by(upto)[i] == left_by(reads)[i]);
    if i > 0 {
        assert(left_by(reads.take(i)).last() == left_by(reads)[i - 1]);
    }
}

/// The counter goes up and down by one, modulo 256, whatever it shows. Opening is refused whenever
/// it shows anything but zero, and then it stays as it is; otherwise it shows one afterwards.
pub proof fn counting_goes_by_one(count: u8)
    ensures
        one_more(count) == (count + 1) % 256,
        one_less(count) == (count + 255) % 256,
        is_refused(count) <==> count != 0,
        after_new(count) == (if count == 0 {
            1
        } else {
            count as int
        }),
{
}

/// Opening the storage comes to a handle on what was opened, at that place, or to the error of the
/// storage, whatever the place and the error are. While anything is counted it is refused.
pub proof fn openings_come_to_what_was_opened<
    T,
    F: FnOnce(usize, usize) -> Result<T, esp_nvs::error::Error>,
>(
    r: Result<Nvs<T>, WmError>,
    inner: T,
    error: esp_nvs::error::Error,
    count: u8,
    offset: usize,
    size: usize,
    open: F,
)
    ensures
        opened_as(r, Ok::<T, esp_nvs::error::Error>(inner), offset, size) <==> (r matches Ok(nvs)
            && nvs@.inner == inner && nvs@.offset == offset && nvs@.size == size),
        opened_as(r, Err::<T, esp_nvs::error::Error>(error), offset, size) <==> r == Err::<
            Nvs<T>,
            WmError,
        >(WmError::NvsError(error)),
        count > 0 ==> (is_new(r, count, offset, size, open) <==> r == Err::<Nvs<T>, WmError>(
            WmError::Other,
        )),
        count == 0 ==> (is_new(r, count, offset, size, open) <==> exists|
            opened: Result<T, esp_nvs::error::Error>,
        |
            #[trigger] open.ensures((offset, size), opened) && opened_as(r, opened, offset, size)),
{
    if count == 0 && (exists|opened: Result<T, esp_nvs::error::Error>| #[trigger]
        open.ensures((offset, size), opened) && opened_as(r, opened, offset, size)) {
        let opened = choose|opened: Result<T, esp_nvs::error::Error>| #[trigger]
            open.ensures((offset, size), opened) && opened_as(r, opened, offset, size);
        assert(opened_as(r, opened, offset, size));
    }
}

/// Any text of at most fifteen ASCII characters without the null character is a name, and no other
/// is. Its bytes are its characters, with null bytes behind them up to sixteen.
pub proof fn names_are_short_ascii(s: Seq<char>, i: int)
    ensures
        s.len() > 15 ==> !is_name(s),
        0 <= i < s.len() && (s[i] == '\0' || s[i] as int >= 128) ==> !is_name(s),
        s.len() <= 15 && (forall|j: int| 0 <= j < s.len() ==> 0 < #[trigger] s[j] as int && s[j]
            as int <= 127) ==> is_name(s),
        padded(s).len() == 16,
        is_name(s) && 0 <= i < s.len() ==> padded(s)[i] as int == s[i] as int,
        s.len() <= i < 16 ==> padded(s)[i] == 0,
        namespace() == "wifimanager"@,
{
    if s.len() <= 15 && (forall|j: int| 0 <= j < s.len() ==> 0 < #[trigger] s[j] as int && s[j]
        as int <= 127) {
        assert forall|j: int| 0 <= j < s.len() implies '\0' < #[trigger] s[j] < '\u{80}' by {
            assert(0 < s[j] as int && s[j] as int <= 127);
        }
    }
    if is_name(s) && 0 <= i < s.len() {
        assert('\0' < s[i] < '\u{80}');
        assert(padded(s)[i] == s[i] as u8);
        assert(s[i] as u8 as int == s[i] as int);
    }
}

/// An entry is addressed by the bytes of `wifimanager` and of its name; what the storage gives is
/// handed on, and its error is reported as an error of the storage, whichever it is.
pub proof fn accesses_are_addressed_and_reported<R>(
    namespace_key: Key,
    entry_key: Key,
    key: Seq<char>,
    value: R,
    error: esp_nvs::error::Error,
)
    ensures
        is_address(namespace_key, entry_key, key) <==> key_bytes(namespace_key) == padded(
            "wifimanager"@,
        ) && key_bytes(entry_key) == padded(key),
        reported(Ok::<R, esp_nvs::error::Error>(value)) == Ok::<R, WmError>(value),
        reported(Err::<R, esp_nvs::error::Error>(error)) == Err::<R, WmError>(
            WmError::NvsError(error),
        ),
{
}

} // verus!
