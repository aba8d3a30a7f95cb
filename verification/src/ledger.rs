//! The ledger: records kept under addresses. A record is created once, at an
//! address that holds nothing yet, and is never moved or removed. Storage is
//! bounded: every record takes its share of what the ledger was opened with.

use crate::address::{lemma_serial_address_injective, serial_address, Address};
use crate::receipt::{VoteReceipt, RECEIPT_SPACE};
use crate::submission::{SubmissionAccount, SubmissionView, SUBMISSION_SPACE};
use vstd::prelude::*;

verus! {

/// What an address can hold.
#[derive(Clone, Debug, PartialEq, Eq)]
pub enum Record {
    Submission(SubmissionAccount),
    Receipt(VoteReceipt),
}

/// A record as a mathematical value.
pub enum RecordView {
    Submission(SubmissionView),
    Receipt,
}

impl RecordView {
    /// The storage that the record takes, in bytes.
    pub open spec fn space(self) -> nat {
        match self {
            RecordView::Submission(_) => SUBMISSION_SPACE as nat,
            RecordView::Receipt => RECEIPT_SPACE as nat,
        }
    }

    /// A submission is within the bounds of its texts; a receipt always is.
    pub open spec fn within_bounds(self) -> bool {
        match self {
            RecordView::Submission(s) => s.within_bounds(),
            RecordView::Receipt => true,
        }
    }
}

impl View for Record {
    type V = RecordView;

    open spec fn view(&self) -> RecordView {
        match self {
            Record::Submission(s) => RecordView::Submission(s@),
            Record::Receipt(_) => RecordView::Receipt,
        }
    }
}

impl Record {
    /// The storage that the record takes, in bytes.
    pub fn space(&self) -> (bytes: u64)
        ensures
            bytes == self@.space(),
    {
        match self {
            Record::Submission(_) => SUBMISSION_SPACE,
            Record::Receipt(_) => RECEIPT_SPACE,
        }
    }

    /// Whether the record is within its bounds.
    pub fn is_within_bounds(&self) -> (ok: bool)
        ensures
            ok == self@.within_bounds(),
    {
        match self {
            Record::Submission(s) => s.is_within_bounds(),
            Record::Receipt(_) => true,
        }
    }
}

/// A ledger as a mathematical value: the record under each occupied address,
/// and the storage that is left.
pub struct LedgerView {
    pub records: Map<Seq<u8>, RecordView>,
    pub free: nat,
}

impl LedgerView {
    /// Whether the address holds a record.
    pub open spec fn occupied(self, address: Seq<u8>) -> bool {
        self.records.contains_key(address)
    }

    /// The submission under the address, where it holds one.
    pub open spec fn submission_at(self, address: Seq<u8>) -> Option<SubmissionView> {
        if self.records.contains_key(address) {
            match self.records[address] {
                RecordView::Submission(s) => Some(s),
                RecordView::Receipt => None,
            }
        } else {
            None
        }
    }

    /// Whether the address holds a receipt.
    pub open spec fn has_receipt(self, address: Seq<u8>) -> bool {
        self.records.contains_key(address) && self.records[address] is Receipt
    }

    /// Finitely many records, each within its bounds; and their number and
    /// the storage left together are no more than the largest capacity, as
    /// every record took at least a byte of it.
    pub open spec fn well_formed(self) -> bool {
        &&& self.records.dom().finite()
        &&& self.records.dom().len() + self.free <= u64::MAX
        &&& forall|a: Seq<u8>| #[trigger] self.records.contains_key(a) ==> self.records[a].within_bounds()
    }

    /// `serial` is the least serial number whose address is not occupied.
    pub open spec fn is_first_free(self, serial: u64) -> bool {
        &&& !self.occupied(serial_address(serial))
        &&& forall|lower: u64| lower < serial ==> self.occupied(#[trigger] serial_address(lower))
    }

    /// The address that the next new submission gets: of the addresses with a
    /// serial number, the first that is not occupied.
    pub open spec fn next_address(self) -> Seq<u8> {
        serial_address(choose|serial: u64| self.is_first_free(serial))
    }

    /// Whether the record can be created under the address: nothing lies
    /// there, the record is within its bounds, and the storage left holds it.
    pub open spec fn admits(self, address: Seq<u8>, record: RecordView) -> bool {
        !self.occupied(address) && record.within_bounds() && record.space() <= self.free
    }

    /// The ledger after the record was created under the address.
    pub open spec fn with_record(self, address: Seq<u8>, record: RecordView) -> LedgerView {
        LedgerView {
            records: self.records.insert(address, record),
            free: (self.free - record.space()) as nat,
        }
    }

    /// The ledger after one more vote was counted for the submission under
    /// the address.
    pub open spec fn with_vote(self, address: Seq<u8>) -> LedgerView {
        match self.submission_at(address) {
            Some(s) => LedgerView {
                records: self.records.insert(address, RecordView::Submission(s.voted())),
                ..self
            },
            None => self,
        }
    }
}

/// At most one serial number is the first free one.
pub proof fn lemma_first_free_unique(ledger: LedgerView, a: u64, b: u64)
    requires
        ledger.is_first_free(a),
        ledger.is_first_free(b),
    ensures
        a == b,
{
    if a < b {
        assert(ledger.occupied(serial_address(a)));
    }
    if b < a {
        assert(ledger.occupied(serial_address(b)));
    }
}

/// Where the addresses of the serial numbers below `count` are all occupied,
/// the ledger holds at least `count` records.
pub proof fn lemma_occupied_serials_counted(records: Map<Seq<u8>, RecordView>, count: nat)
    requires
        records.dom().finite(),
        count <= u64::MAX + 1,
        forall|serial: u64| serial < count ==> records.contains_key(#[trigger] serial_address(serial)),
    ensures
        count <= records.dom().len(),
    decreases count,
{
    if count > 0 {
        let last = (count - 1) as u64;
        let rest = records.remove(serial_address(last));
        assert forall|serial: u64| serial < count - 1 implies rest.contains_key(
            #[trigger] serial_address(serial),
        ) by {
            if serial_address(serial) == serial_address(last) {
                lemma_serial_address_injective(serial, last);
            }
        }
        lemma_occupied_serials_counted(rest, (count - 1) as nat);
        assert(records.contains_key(serial_address(last)));
    }
}

/// A well-formed ledger has a next address, and nothing lies there.
pub proof fn lemma_next_address_free(ledger: LedgerView)
    requires
        ledger.well_formed(),
    ensures
        !ledger.occupied(ledger.next_address()),
        exists|serial: u64| ledger.is_first_free(serial),
{
    if forall|serial: u64| ledger.occupied(#[trigger] serial_address(serial)) {
        lemma_occupied_serials_counted(ledger.records, (u64::MAX + 1) as nat);
    }
    let free = choose|serial: u64| !ledger.occupied(#[trigger] serial_address(serial));
    lemma_least_free(ledger, free);
}

/// Below any free serial number lies the first free one.
proof fn lemma_least_free(ledger: LedgerView, free: u64)
    requires
        !ledger.occupied(serial_address(free)),
    ensures
        exists|serial: u64| ledger.is_first_free(serial),
    decreases free,
{
    if forall|lower: u64| lower < free ==> ledger.occupied(#[trigger] serial_address(lower)) {
        assert(ledger.is_first_free(free));
    } else {
        let lower = choose|lower: u64| lower < free && !ledger.occupied(#[trigger] serial_address(lower));
        lemma_least_free(ledger, lower);
    }
}

/// One record with the address it lies at.
struct Entry {
    address: Address,
    record: Record,
}

/// No address occurs twice among the entries.
spec fn distinct(entries: Seq<Entry>) -> bool {
    forall|i: int, j: int| 0 <= i < j < entries.len() ==> entries[i].address@ != entries[j].address@
}

/// Every record among the entries is within its bounds.
spec fn bounded(entries: Seq<Entry>) -> bool {
    forall|i: int| 0 <= i < entries.len() ==> (#[trigger] entries[i]).record@.within_bounds()
}

/// The records of the entries, by address.
spec fn records_of(entries: Seq<Entry>) -> Map<Seq<u8>, RecordView>
    decreases entries.len(),
{
    if entries.len() == 0 {
        Map::empty()
    } else {
        records_of(entries.drop_last()).insert(entries.last().address@, entries.last().record@)
    }
}

/// The occupied addresses are those of the entries, and there are no more of
/// them than entries.
proof fn lemma_records_dom(entries: Seq<Entry>)
    ensures
        records_of(entries).dom().finite(),
        records_of(entries).dom().len() <= entries.len(),
        forall|a: Seq<u8>|
            records_of(entries).contains_key(a) <==> exists|i: int|
                0 <= i < entries.len() && #[trigger] entries[i].address@ == a,
    decreases entries.len(),
{
    if entries.len() > 0 {
        let front = entries.drop_last();
        lemma_records_dom(front);
        assert forall|a: Seq<u8>|
            records_of(entries).contains_key(a) <==> exists|i: int|
                0 <= i < entries.len() && #[trigger] entries[i].address@ == a by {
            if records_of(entries).contains_key(a) {
                if a == entries.last().address@ {
                    assert(entries[entries.len() - 1].address@ == a);
                } else {
                    let i = choose|i: int| 0 <= i < front.len() && #[trigger] front[i].address@ == a;
                    assert(entries[i].address@ == a);
                }
            }
            if exists|i: int| 0 <= i < entries.len() && #[trigger] entries[i].address@ == a {
                let i = choose|i: int| 0 <= i < entries.len() && #[trigger] entries[i].address@ == a;
                if i < front.len() {
                    assert(front[i].address@ == a);
                }
            }
        }
    }
}

/// Distinct entries make as many records.
proof fn lemma_records_len(entries: Seq<Entry>)
    requires
        distinct(entries),
    ensures
        records_of(entries).dom().len() == entries.len(),
    decreases entries.len(),
{
    if entries.len() > 0 {
        let front = entries.drop_last();
        lemma_records_dom(front);
        lemma_records_len(front);
        if records_of(front).contains_key(entries.last().address@) {
            let i = choose|i: int|
                0 <= i < front.len() && #[trigger] front[i].address@ == entries.last().address@;
            assert(entries[i].address@ == entries[entries.len() - 1].address@);
        }
    }
}

/// Among distinct entries, each address holds the record of its entry.
proof fn lemma_records_at(entries: Seq<Entry>, i: int)
    requires
        distinct(entries),
        0 <= i < entries.len(),
    ensures
        records_of(entries).contains_key(entries[i].address@),
        records_of(entries)[entries[i].address@] == entries[i].record@,
    decreases entries.len(),
{
    if i < entries.len() - 1 {
        let front = entries.drop_last();
        assert(front[i] == entries[i]);
        lemma_records_at(front, i);
    }
}

/// Replacing the record of one entry replaces the record at its address.
proof fn lemma_records_update(entries: Seq<Entry>, i: int, entry: Entry)
    requires
        distinct(entries),
        0 <= i < entries.len(),
        entry.address@ == entries[i].address@,
    ensures
        distinct(entries.update(i, entry)),
        records_of(entries.update(i, entry)) == records_of(entries).insert(entry.address@, entry.record@),
    decreases entries.len(),
{
    let updated = entries.update(i, entry);
    let front = entries.drop_last();
    if i == entries.len() - 1 {
        assert(updated.drop_last() =~= front);
        assert(records_of(updated) =~= records_of(entries).insert(entry.address@, entry.record@));
    } else {
        assert(front[i] == entries[i]);
        lemma_records_update(front, i, entry);
        assert(updated.drop_last() =~= front.update(i, entry));
        assert(updated.last() == entries.last());
        assert(entries[i].address@ != entries[entries.len() - 1].address@);
        assert(records_of(updated) =~= records_of(entries).insert(entry.address@, entry.record@));
    }
}

/// The ledger itself.
pub struct Ledger {
    entries: Vec<Entry>,
    free: u64,
}

impl View for Ledger {
    type V = LedgerView;

    closed spec fn view(&self) -> LedgerView {
        LedgerView { records: records_of(self.entries@), free: self.free as nat }
    }
}

impl Ledger {
    #[verifier::type_invariant]
    pub(crate) closed spec fn sound(self) -> bool {
        &&& distinct(self.entries@)
        &&& bounded(self.entries@)
        &&& self.entries@.len() + self.free <= u64::MAX
    }

    /// An empty ledger with `capacity` bytes of storage.
    pub fn new(capacity: u64) -> (ledger: Ledger)
        ensures
            ledger@ == (LedgerView { records: Map::empty(), free: capacity as nat }),
            ledger@.well_formed(),
    {
        Ledger { entries: Vec::new(), free: capacity }
    }

    /// The storage that is left, in bytes.
    pub fn free(&self) -> (left: u64)
        ensures
            left == self@.free,
            self@.well_formed(),
    {
        proof {
            use_type_invariant(self);
            self.lemma_well_formed();
        }
        self.free
    }

    /// The number of records.
    pub fn len(&self) -> (count: usize)
        ensures
            count == self@.records.dom().len(),
            self@.well_formed(),
    {
        proof {
            use_type_invariant(self);
            self.lemma_well_formed();
            lemma_records_len(self.entries@);
        }
        self.entries.len()
    }

    /// What holds of the entries of a ledger makes its view well-formed.
    pub(crate) proof fn lemma_well_formed(&self)
        requires
            self.sound(),
        ensures
            self@.well_formed(),
    {
        let entries = self.entries@;
        lemma_records_dom(entries);
        assert forall|a: Seq<u8>| #[trigger]
            self@.records.contains_key(a) implies self@.records[a].within_bounds() by {
            let i = choose|i: int| 0 <= i < entries.len() && #[trigger] entries[i].address@ == a;
            lemma_records_at(entries, i);
        }
    }

    /// The place of the entry with the given address.
    fn find(&self, address: &Address) -> (found: Option<usize>)
        ensures
            match found {
                Some(i) => i < self.entries.len() && self.entries[i as int].address@ == address@,
                None => !self@.occupied(address@),
            },
    {
        let mut i: usize = 0;
        while i < self.entries.len()
            invariant
                i <= self.entries.len(),
                forall|j: int| 0 <= j < i ==> self.entries[j].address@ != address@,
            decreases self.entries.len() - i,
        {
            if self.entries[i].address == *address {
                return Some(i);
            }
            i += 1;
        }
        proof {
            lemma_records_dom(self.entries@);
        }
        None
    }

    /// Whether the address holds a record.
    pub fn contains(&self, address: &Address) -> (occupied: bool)
        ensures
            occupied == self@.occupied(address@),
            self@.well_formed(),
    {
        proof {
            use_type_invariant(self);
            self.lemma_well_formed();
        }
        match self.find(address) {
            Some(i) => {
                proof {
                    lemma_records_at(self.entries@, i as int);
                }
                true
            },
            None => false,
        }
    }

    /// The record under the address, if it holds one.
    pub fn get(&self, address: &Address) -> (found: Option<&Record>)
        ensures
            found matches Some(record) ==> self@.occupied(address@) && self@.records[address@]
                == record@,
            found is None ==> !self@.occupied(address@),
            self@.well_formed(),
    {
        proof {
            use_type_invariant(self);
            self.lemma_well_formed();
        }
        match self.find(address) {
            Some(i) => {
                proof {
                    lemma_records_at(self.entries@, i as int);
                }
                Some(&self.entries[i].record)
            },
            None => None,
        }
    }

    /// The submission under the address, if it holds one. It is within its bounds.
    pub fn submission(&self, address: &Address) -> (found: Option<&SubmissionAccount>)
        ensures
            found matches Some(s) ==> self@.submission_at(address@) == Some(s@) && s@.within_bounds(),
            found is None ==> self@.submission_at(address@) is None,
            self@.well_formed(),
    {
        proof {
            use_type_invariant(self);
            self.lemma_well_formed();
        }
        match self.find(address) {
            Some(i) => {
                proof {
                    lemma_records_at(self.entries@, i as int);
                }
                match &self.entries[i].record {
                    Record::Submission(s) => Some(s),
                    Record::Receipt(_) => None,
                }
            },
            None => None,
        }
    }

    /// Whether the address holds a receipt.
    pub fn has_receipt(&self, address: &Address) -> (held: bool)
        ensures
            held == self@.has_receipt(address@),
            self@.well_formed(),
    {
        match self.get(address) {
            Some(Record::Receipt(_)) => true,
            _ => false,
        }
    }

    /// The address for the next new submission.
    pub fn fresh_address(&self) -> (address: Address)
        ensures
            address@ == self@.next_address(),
            !self@.occupied(address@),
            self@.well_formed(),
    {
        proof {
            use_type_invariant(self);
            self.lemma_well_formed();
            lemma_records_dom(self.entries@);
        }
        let mut serial: u64 = 0;
        loop
            invariant
                self.entries@.len() <= u64::MAX,
                records_of(self.entries@).dom().finite(),
                records_of(self.entries@).dom().len() <= self.entries@.len(),
                serial <= self.entries@.len(),
                forall|lower: u64| lower < serial ==> self@.occupied(#[trigger] serial_address(lower)),
            decreases self.entries@.len() - serial,
        {
            let address = Address::serial(serial);
            if !self.contains(&address) {
                proof {
                    assert(self@.is_first_free(serial));
                    let chosen = choose|k: u64| self@.is_first_free(k);
                    lemma_first_free_unique(self@, serial, chosen);
                }
                return address;
            }
            proof {
                lemma_occupied_serials_counted(self@.records, (serial + 1) as nat);
            }
            serial += 1;
        }
    }

    /// Creates the record under the address, unless a record lies there
    /// already, the record is beyond its bounds, or the storage left does not
    /// hold it. Nothing changes where it is not created.
    pub fn create(&mut self, address: Address, record: Record) -> (created: bool)
        ensures
            created == old(self)@.admits(address@, record@),
            created ==> final(self)@ == old(self)@.with_record(address@, record@),
            !created ==> final(self)@ == old(self)@,
            final(self)@.well_formed(),
    {
        if self.contains(&address) || !record.is_within_bounds() || self.free() < record.space() {
            return false;
        }
        self.insert(address, record);
        true
    }

    /// Creates a record that the ledger admits under the address.
    pub(crate) fn insert(&mut self, address: Address, record: Record)
        requires
            old(self)@.admits(address@, record@),
        ensures
            final(self)@ == old(self)@.with_record(address@, record@),
            final(self)@.well_formed(),
    {
        proof {
            use_type_invariant(&*self);
            lemma_records_dom(self.entries@);
        }
        let ghost before = self.entries@;
        let space = record.space();
        let mut entries: Vec<Entry> = Vec::new();
        std::mem::swap(&mut self.entries, &mut entries);
        entries.push(Entry { address, record });
        self.free = self.free - space;
        proof {
            assert(entries@.drop_last() =~= before);
        }
        std::mem::swap(&mut self.entries, &mut entries);
        proof {
            self.lemma_well_formed();
        }
    }

    /// Counts one more vote for the submission under the address.
    pub(crate) fn count_vote(&mut self, address: &Address)
        requires
            old(self)@.submission_at(address@) matches Some(s) && s.can_count(),
        ensures
            final(self)@ == old(self)@.with_vote(address@),
            final(self)@.well_formed(),
    {
        proof {
            use_type_invariant(&*self);
        }
        let found = self.find(address);
        let i = found.unwrap();
        proof {
            lemma_records_at(self.entries@, i as int);
        }
        let ghost before = self.entries@;
        let mut entries: Vec<Entry> = Vec::new();
        std::mem::swap(&mut self.entries, &mut entries);
        match &mut entries[i].record {
            Record::Submission(s) => {
                let _ = s.record_vote();
            },
            Record::Receipt(_) => {},
        }
        proof {
            assert(entries@ =~= before.update(i as int, entries@[i as int]));
            lemma_records_update(before, i as int, entries@[i as int]);
        }
        std::mem::swap(&mut self.entries, &mut entries);
        proof {
            self.lemma_well_formed();
        }
    }
}

} // verus!
