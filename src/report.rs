//! The test runner's report: each fixture's computed response is compared with
//! the expected one, exactly, and the outcome recorded once per record.
use vstd::prelude::*;

verus! {

/// The outcome of one record.
#[derive(Clone, Copy, Debug, PartialEq, Eq, Structural)]
pub struct ReportEntry {
    /// The record's number in the fixture file.
    pub record: u64,
    /// Whether the computed response equals the expected one.
    pub passed: bool,
}

/// Why a result could not be recorded.
#[derive(Clone, Copy, Debug, PartialEq, Eq, Structural)]
pub enum ReportError {
    /// A result for this record was recorded already.
    AlreadyRecorded { record: u64 },
}

/// The outcomes recorded so far, in the order they came.
pub struct TestReport {
    pub entries: Vec<ReportEntry>,
}

/// Whether some entry is about `record`.
pub open spec fn has_record(entries: Seq<ReportEntry>, record: u64) -> bool {
    exists|i: int| 0 <= i < entries.len() && #[trigger] entries[i].record == record
}

/// The records whose comparison failed, in the order of the entries.
pub open spec fn mismatched(entries: Seq<ReportEntry>) -> Seq<u64>
    decreases entries.len(),
{
    if entries.len() == 0 {
        Seq::empty()
    } else {
        let rest = mismatched(entries.drop_last());
        if entries.last().passed {
            rest
        } else {
            rest.push(entries.last().record)
        }
    }
}

/// The entries that comparing the fixtures' expected responses with the computed
/// ones gives, record by record.
pub open spec fn compare_entries(expected: Seq<Seq<u8>>, actual: Seq<Seq<u8>>) -> Seq<ReportEntry> {
    Seq::new(
        expected.len(),
        |i: int| ReportEntry { record: i as u64, passed: expected[i] == actual[i] },
    )
}

/// No failed entry, no mismatch.
pub proof fn lemma_mismatched_none(entries: Seq<ReportEntry>)
    requires
        forall|i: int| 0 <= i < entries.len() ==> (#[trigger] entries[i]).passed,
    ensures
        mismatched(entries) == Seq::<u64>::empty(),
    decreases entries.len(),
{
    if entries.len() > 0 {
        let front = entries.drop_last();
        assert forall|i: int| 0 <= i < front.len() implies (#[trigger] front[i]).passed by {
            assert(front[i] == entries[i]);
        }
        lemma_mismatched_none(front);
        assert(entries[entries.len() - 1].passed);
    }
}

/// Exactly one failed entry, exactly one mismatch: that entry's record.
pub proof fn lemma_mismatched_one(entries: Seq<ReportEntry>, k: int)
    requires
        0 <= k < entries.len(),
        !entries[k].passed,
        forall|i: int| 0 <= i < entries.len() && i != k ==> (#[trigger] entries[i]).passed,
    ensures
        mismatched(entries) == seq![entries[k].record],
    decreases entries.len(),
{
    let front = entries.drop_last();
    assert forall|i: int| 0 <= i < front.len() && i != k implies (#[trigger] front[i]).passed by {
        assert(front[i] == entries[i]);
    }
    if k == entries.len() - 1 {
        assert forall|i: int| 0 <= i < front.len() implies (#[trigger] front[i]).passed by {
            assert(front[i] == entries[i]);
        }
        lemma_mismatched_none(front);
        assert(Seq::<u64>::empty().push(entries[k].record) =~= seq![entries[k].record]);
    } else {
        assert(front[k] == entries[k]);
        lemma_mismatched_one(front, k);
        assert(entries[entries.len() - 1].passed);
    }
}

/// A test run where every computed response equals its expected one reports no
/// mismatch; one where only the response of record `k` differs reports exactly
/// one mismatch, naming record `k`.
pub proof fn lemma_report_mismatches(expected: Seq<Seq<u8>>, actual: Seq<Seq<u8>>, k: int)
    requires
        expected.len() == actual.len(),
        expected.len() <= u64::MAX,
    ensures
        (forall|i: int| 0 <= i < expected.len() ==> #[trigger] expected[i] == actual[i])
            ==> mismatched(compare_entries(expected, actual)) == Seq::<u64>::empty(),
        (0 <= k < expected.len() && expected[k] != actual[k] && forall|i: int|
            0 <= i < expected.len() && i != k ==> #[trigger] expected[i] == actual[i])
            ==> mismatched(compare_entries(expected, actual)) == seq![k as u64],
{
    let entries = compare_entries(expected, actual);
    if forall|i: int| 0 <= i < expected.len() ==> #[trigger] expected[i] == actual[i] {
        assert forall|i: int| 0 <= i < entries.len() implies (#[trigger] entries[i]).passed by {
            assert(expected[i] == actual[i]);
        }
        lemma_mismatched_none(entries);
    }
    if 0 <= k < expected.len() && expected[k] != actual[k] && forall|i: int|
        0 <= i < expected.len() && i != k ==> #[trigger] expected[i] == actual[i] {
        assert forall|i: int| 0 <= i < entries.len() && i != k implies (
        #[trigger] entries[i]).passed by {
            assert(expected[i] == actual[i]);
        }
        lemma_mismatched_one(entries, k);
    }
}

/// Whether two encoded responses are the same, byte for byte.
pub fn same_response(expected: &[u8], actual: &[u8]) -> (r: bool)
    ensures
        r == (expected@ == actual@),
{
    if expected.len() != actual.len() {
        return false;
    }
    let mut i: usize = 0;
    while i < expected.len()
        invariant
            i <= expected@.len(),
            expected@.len() == actual@.len(),
            forall|k: int| 0 <= k < i ==> expected@[k] == actual@[k],
        decreases expected@.len() - i,
    {
        if expected[i] != actual[i] {
            return false;
        }
        i = i + 1;
    }
    assert(expected@ =~= actual@);
    true
}

impl TestReport {
    /// An empty report.
    pub fn new() -> (r: TestReport)
        ensures
            r.entries@ == Seq::<ReportEntry>::empty(),
    {
        TestReport { entries: Vec::new() }
    }

    /// Whether a result for `record` was recorded.
    pub fn contains(&self, record: u64) -> (r: bool)
        ensures
            r == has_record(self.entries@, record),
    {
        let mut i: usize = 0;
        while i < self.entries.len()
            invariant
                i <= self.entries@.len(),
                forall|k: int| 0 <= k < i ==> self.entries@[k].record != record,
            decreases self.entries@.len() - i,
        {
            if self.entries[i].record == record {
                return true;
            }
            i = i + 1;
        }
        false
    }

    /// Records the comparison of `actual` with `expected` for `record`; a second
    /// result for the same record is refused and leaves the report unchanged.
    pub fn record(&mut self, record: u64, expected: &[u8], actual: &[u8]) -> (r: Result<
        (),
        ReportError,
    >)
        ensures
            has_record(old(self).entries@, record) ==> r == Err::<(), ReportError>(
                ReportError::AlreadyRecorded { record },
            ) && final(self).entries@ == old(self).entries@,
            !has_record(old(self).entries@, record) ==> r is Ok && final(self).entries@
                == old(self).entries@.push(
                ReportEntry { record, passed: expected@ == actual@ },
            ),
    {
        if self.contains(record) {
            return Err(ReportError::AlreadyRecorded { record });
        }
        let passed = same_response(expected, actual);
        self.entries.push(ReportEntry { record, passed });
        Ok(())
    }

    /// The number of records whose comparison failed.
    pub fn mismatch_count(&self) -> (n: usize)
        ensures
            n == mismatched(self.entries@).len(),
    {
        self.mismatched_records().len()
    }

    /// The records whose comparison failed, in the order they were recorded.
    pub fn mismatched_records(&self) -> (r: Vec<u64>)
        ensures
            r@ == mismatched(self.entries@),
    {
        let mut r: Vec<u64> = Vec::new();
        let mut i: usize = 0;
        while i < self.entries.len()
            invariant
                i <= self.entries@.len(),
                r@ == mismatched(self.entries@.take(i as int)),
            decreases self.entries@.len() - i,
        {
            assert(self.entries@.take(i as int + 1).drop_last() =~= self.entries@.take(i as int));
            if !self.entries[i].passed {
                r.push(self.entries[i].record);
            }
            i = i + 1;
        }
        assert(self.entries@.take(i as int) =~= self.entries@);
        r
    }
}

/// Compares each fixture's expected response with the computed one, in record
/// order, and returns the report.
pub fn compare_all(expected: &Vec<Vec<u8>>, actual: &Vec<Vec<u8>>) -> (r: TestReport)
    requires
        expected@.len() == actual@.len(),
        expected@.len() <= u64::MAX,
    ensures
        r.entries@ == compare_entries(expected@.map_values(|v: Vec<u8>| v@), actual@.map_values(
            |v: Vec<u8>| v@,
        )),
{
    let ghost ex = expected@.map_values(|v: Vec<u8>| v@);
    let ghost ac = actual@.map_values(|v: Vec<u8>| v@);
    let mut report = TestReport::new();
    let mut i: usize = 0;
    while i < expected.len()
        invariant
            i <= expected@.len(),
            expected@.len() == actual@.len(),
            expected@.len() <= u64::MAX,
            ex == expected@.map_values(|v: Vec<u8>| v@),
            ac == actual@.map_values(|v: Vec<u8>| v@),
            report.entries@ =~= compare_entries(ex, ac).take(i as int),
        decreases expected@.len() - i,
    {
        let passed = same_response(expected[i].as_slice(), actual[i].as_slice());
        report.entries.push(ReportEntry { record: i as u64, passed });
        i = i + 1;
        assert(report.entries@ =~= compare_entries(ex, ac).take(i as int));
    }
    assert(compare_entries(ex, ac).take(i as int) =~= compare_entries(ex, ac));
    report
}

} // verus!
