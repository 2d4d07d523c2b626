//! The decisions of a finite source (batch file or test fixtures): which events
//! become stream items, and when the stream ends.
use vstd::prelude::*;

verus! {

/// Where a finite source stands.
#[derive(Clone, Copy, Debug, PartialEq, Eq, Structural)]
pub enum FilePhase {
    /// The file is being opened; nothing may be yielded yet.
    Opening,
    /// The file is open; records become stream items.
    Reading,
    /// The stream has ended; nothing more is yielded.
    Ended,
}

/// What the reader reports to the source.
#[derive(Clone, Copy, Debug, PartialEq, Eq, Structural)]
pub enum FileEvent {
    Opened,
    OpenFailed,
    /// The next record decoded successfully.
    Record,
    /// The next record could not be decoded.
    Malformed,
    EndOfFile,
    Quit,
}

/// What the source does in answer to an event.
#[derive(Clone, Copy, Debug, PartialEq, Eq, Structural)]
pub enum FileAction {
    /// Nothing to do.
    Idle,
    /// Fail construction of the source: the file could not be opened.
    FailConstruction,
    /// Yield the decoded record, numbered in file order, with its callback.
    YieldJob { record: u64 },
    /// Yield an error item for the record with this number.
    YieldRecordError { record: u64 },
    /// End the stream without error.
    EndStream,
}

/// A finite source: its phase and the number of records seen so far.
#[derive(Clone, Copy, Debug, PartialEq, Eq, Structural)]
pub struct FileSource {
    pub phase: FilePhase,
    pub records_seen: u64,
}

/// The next state and action of a finite source.
pub open spec fn file_next(s: FileSource, e: FileEvent) -> (FileSource, FileAction) {
    match s.phase {
        FilePhase::Opening => match e {
            FileEvent::Opened => (FileSource { phase: FilePhase::Reading, ..s }, FileAction::Idle),
            FileEvent::OpenFailed => (
                FileSource { phase: FilePhase::Ended, ..s },
                FileAction::FailConstruction,
            ),
            FileEvent::Quit => (FileSource { phase: FilePhase::Ended, ..s }, FileAction::EndStream),
            _ => (s, FileAction::Idle),
        },
        FilePhase::Reading => match e {
            FileEvent::Record => (
                FileSource { records_seen: (s.records_seen + 1) as u64, ..s },
                FileAction::YieldJob { record: s.records_seen },
            ),
            FileEvent::Malformed => (
                FileSource { records_seen: (s.records_seen + 1) as u64, ..s },
                FileAction::YieldRecordError { record: s.records_seen },
            ),
            FileEvent::EndOfFile | FileEvent::Quit => (
                FileSource { phase: FilePhase::Ended, ..s },
                FileAction::EndStream,
            ),
            _ => (s, FileAction::Idle),
        },
        FilePhase::Ended => (s, FileAction::Idle),
    }
}

/// Whether an event is a record, well-formed or not.
pub open spec fn is_record(e: FileEvent) -> bool {
    e == FileEvent::Record || e == FileEvent::Malformed
}

/// The final state and the actions of a finite source that takes `es` in order.
pub open spec fn file_run(s: FileSource, es: Seq<FileEvent>) -> (FileSource, Seq<FileAction>)
    decreases es.len(),
{
    if es.len() == 0 {
        (s, Seq::empty())
    } else {
        let (mid, acts) = file_run(s, es.drop_last());
        let (next, a) = file_next(mid, es.last());
        (next, acts.push(a))
    }
}

/// The item that a record event at position `n` becomes while reading.
pub open spec fn record_item(e: FileEvent, n: u64) -> FileAction {
    if e == FileEvent::Record {
        FileAction::YieldJob { record: n }
    } else {
        FileAction::YieldRecordError { record: n }
    }
}

/// The events of a file whose `n` records are all well-formed.
pub open spec fn well_formed_file(n: nat) -> Seq<FileEvent> {
    seq![FileEvent::Opened] + Seq::new(n, |i: int| FileEvent::Record) + seq![FileEvent::EndOfFile]
}

/// The events of a file of `n` records of which the one at `bad` is malformed.
pub open spec fn file_with_malformed(n: nat, bad: int) -> Seq<FileEvent> {
    seq![FileEvent::Opened] + Seq::new(
        n,
        |i: int|
            if i == bad {
                FileEvent::Malformed
            } else {
                FileEvent::Record
            },
    ) + seq![FileEvent::EndOfFile]
}

/// Whether an action hands an item, a job or a record error, to the stream.
pub open spec fn yields_item(a: FileAction) -> bool {
    a is YieldJob || a is YieldRecordError
}

/// Nothing is handed to the stream before the file is open, nor after the stream
/// has ended; and an opening source reads only once the file is open.
pub proof fn lemma_no_item_unless_open(s: FileSource, e: FileEvent)
    requires
        s.phase == FilePhase::Opening || s.phase == FilePhase::Ended,
    ensures
        !yields_item(file_next(s, e).1),
        file_next(s, e).0.phase == FilePhase::Reading ==> e == FileEvent::Opened,
{
}

/// Taking `a` and then `b` is taking `a + b`.
pub proof fn lemma_file_run_concat(s: FileSource, a: Seq<FileEvent>, b: Seq<FileEvent>)
    ensures
        file_run(s, a + b) == (file_run(file_run(s, a).0, b).0, file_run(s, a).1 + file_run(
            file_run(s, a).0,
            b,
        ).1),
    decreases b.len(),
{
    if b.len() == 0 {
        assert(a + b =~= a);
        assert(file_run(s, a).1 + Seq::<FileAction>::empty() =~= file_run(s, a).1);
    } else {
        assert((a + b).drop_last() =~= a + b.drop_last());
        assert((a + b).last() == b.last());
        lemma_file_run_concat(s, a, b.drop_last());
        let mid = file_run(s, a).0;
        assert(file_run(s, a).1 + file_run(mid, b.drop_last()).1.push(
            file_next(file_run(mid, b.drop_last()).0, b.last()).1,
        ) =~= (file_run(s, a).1 + file_run(mid, b.drop_last()).1).push(
            file_next(file_run(mid, b.drop_last()).0, b.last()).1,
        ));
    }
}

/// While reading, records become items one for one and in order, numbered on
/// from the count already seen.
pub proof fn lemma_records_in_order(s: FileSource, recs: Seq<FileEvent>)
    requires
        s.phase == FilePhase::Reading,
        s.records_seen + recs.len() <= u64::MAX,
        forall|i: int| 0 <= i < recs.len() ==> is_record(#[trigger] recs[i]),
    ensures
        file_run(s, recs).0 == (FileSource {
            phase: FilePhase::Reading,
            records_seen: (s.records_seen + recs.len()) as u64,
        }),
        file_run(s, recs).1 =~= Seq::new(
            recs.len(),
            |i: int| record_item(recs[i], (s.records_seen + i) as u64),
        ),
    decreases recs.len(),
{
    if recs.len() > 0 {
        let front = recs.drop_last();
        assert forall|i: int| 0 <= i < front.len() implies is_record(#[trigger] front[i]) by {
            assert(front[i] == recs[i]);
        }
        lemma_records_in_order(s, front);
        assert(is_record(recs[recs.len() - 1]));
    }
}

/// A file of `n` well-formed records yields exactly `n` jobs, numbered in file
/// order, and then the stream ends; this holds for the batch and the
/// test-runner source alike.
pub proof fn lemma_well_formed_file(n: nat)
    requires
        n <= u64::MAX,
    ensures
        file_run(FileSource { phase: FilePhase::Opening, records_seen: 0 }, well_formed_file(n)).1
            =~= seq![FileAction::Idle] + Seq::new(
            n,
            |i: int| FileAction::YieldJob { record: i as u64 },
        ) + seq![FileAction::EndStream],
{
    let s0 = FileSource { phase: FilePhase::Opening, records_seen: 0 };
    let recs = Seq::new(n, |i: int| FileEvent::Record);
    let open_ev = seq![FileEvent::Opened];
    let end_ev = seq![FileEvent::EndOfFile];
    lemma_file_run_concat(s0, open_ev + recs, end_ev);
    lemma_file_run_concat(s0, open_ev, recs);
    assert(open_ev.drop_last() =~= Seq::<FileEvent>::empty());
    assert(end_ev.drop_last() =~= Seq::<FileEvent>::empty());
    assert(file_run(s0, Seq::<FileEvent>::empty()) == (s0, Seq::<FileAction>::empty()));
    assert(file_run(s0, open_ev).1 =~= seq![FileAction::Idle]);
    let s1 = file_run(s0, open_ev).0;
    assert(s1 == FileSource { phase: FilePhase::Reading, records_seen: 0 });
    lemma_records_in_order(s1, recs);
    let s2 = file_run(s0, open_ev + recs).0;
    assert(file_run(s2, Seq::<FileEvent>::empty()) == (s2, Seq::<FileAction>::empty()));
    assert(file_run(s2, end_ev).1 =~= seq![FileAction::EndStream]);
}

/// A file of `n` records whose record at `bad` is malformed yields `n - 1` jobs
/// and one error item, in file order, and then the stream ends; this holds for
/// the batch and the test-runner source alike.
pub proof fn lemma_file_with_malformed(n: nat, bad: int)
    requires
        n <= u64::MAX,
        0 <= bad < n,
    ensures
        file_run(
            FileSource { phase: FilePhase::Opening, records_seen: 0 },
            file_with_malformed(n, bad),
        ).1 =~= seq![FileAction::Idle] + Seq::new(
            n,
            |i: int|
                if i == bad {
                    FileAction::YieldRecordError { record: i as u64 }
                } else {
                    FileAction::YieldJob { record: i as u64 }
                },
        ) + seq![FileAction::EndStream],
{
    let s0 = FileSource { phase: FilePhase::Opening, records_seen: 0 };
    let recs = Seq::new(
        n,
        |i: int|
            if i == bad {
                FileEvent::Malformed
            } else {
                FileEvent::Record
            },
    );
    let open_ev = seq![FileEvent::Opened];
    let end_ev = seq![FileEvent::EndOfFile];
    assert(file_with_malformed(n, bad) =~= open_ev + recs + end_ev);
    lemma_file_run_concat(s0, open_ev + recs, end_ev);
    lemma_file_run_concat(s0, open_ev, recs);
    assert(open_ev.drop_last() =~= Seq::<FileEvent>::empty());
    assert(end_ev.drop_last() =~= Seq::<FileEvent>::empty());
    assert(file_run(s0, Seq::<FileEvent>::empty()) == (s0, Seq::<FileAction>::empty()));
    assert(file_run(s0, open_ev).1 =~= seq![FileAction::Idle]);
    let s1 = file_run(s0, open_ev).0;
    assert(s1 == FileSource { phase: FilePhase::Reading, records_seen: 0 });
    lemma_records_in_order(s1, recs);
    assert(file_run(s1, recs).1 =~= Seq::new(
        n,
        |i: int|
            if i == bad {
                FileAction::YieldRecordError { record: i as u64 }
            } else {
                FileAction::YieldJob { record: i as u64 }
            },
    ));
    let s2 = file_run(s0, open_ev + recs).0;
    assert(file_run(s2, Seq::<FileEvent>::empty()) == (s2, Seq::<FileAction>::empty()));
    assert(file_run(s2, end_ev).1 =~= seq![FileAction::EndStream]);
}

impl FileSource {
    /// A source whose file is still being opened.
    pub fn opening() -> (s: FileSource)
        ensures
            s == (FileSource { phase: FilePhase::Opening, records_seen: 0 }),
    {
        FileSource { phase: FilePhase::Opening, records_seen: 0 }
    }

    /// Takes one event; a record can only be counted while fewer than `u64::MAX`
    /// have been seen.
    pub fn step(&mut self, e: FileEvent) -> (a: FileAction)
        requires
            is_record(e) ==> old(self).records_seen < u64::MAX,
        ensures
            (*final(self), a) == file_next(*old(self), e),
    {
        match self.phase {
            FilePhase::Opening => match e {
                FileEvent::Opened => {
                    self.phase = FilePhase::Reading;
                    FileAction::Idle
                },
                FileEvent::OpenFailed => {
                    self.phase = FilePhase::Ended;
                    FileAction::FailConstruction
                },
                FileEvent::Quit => {
                    self.phase = FilePhase::Ended;
                    FileAction::EndStream
                },
                _ => FileAction::Idle,
            },
            FilePhase::Reading => match e {
                FileEvent::Record => {
                    let n = self.records_seen;
                    self.records_seen = n + 1;
                    FileAction::YieldJob { record: n }
                },
                FileEvent::Malformed => {
                    let n = self.records_seen;
                    self.records_seen = n + 1;
                    FileAction::YieldRecordError { record: n }
                },
                FileEvent::EndOfFile | FileEvent::Quit => {
                    self.phase = FilePhase::Ended;
                    FileAction::EndStream
                },
                _ => FileAction::Idle,
            },
            FilePhase::Ended => FileAction::Idle,
        }
    }

    /// Takes each event of `es` in order and returns the actions, one per event.
    pub fn run(&mut self, es: &Vec<FileEvent>) -> (acts: Vec<FileAction>)
        requires
            old(self).records_seen + es@.len() <= u64::MAX,
        ensures
            (*final(self), acts@) == file_run(*old(self), es@),
    {
        let ghost s0 = *self;
        let mut acts: Vec<FileAction> = Vec::new();
        let mut i: usize = 0;
        while i < es.len()
            invariant
                i <= es@.len(),
                s0.records_seen + es@.len() <= u64::MAX,
                self.records_seen <= s0.records_seen + i,
                (*self, acts@) == file_run(s0, es@.take(i as int)),
            decreases es@.len() - i,
        {
            assert(es@.take(i as int + 1).drop_last() =~= es@.take(i as int));
            let a = self.step(es[i]);
            acts.push(a);
            i = i + 1;
        }
        assert(es@.take(i as int) =~= es@);
        acts
    }
}

} // verus!
