use command_source::file_source::{FileAction, FileEvent, FilePhase, FileSource};

#[test]
fn no_item_before_the_file_is_open() {
    let mut s = FileSource::opening();
    assert_eq!(s.step(FileEvent::Record), FileAction::Idle);
    assert_eq!(s.step(FileEvent::Malformed), FileAction::Idle);
    assert_eq!(s.phase, FilePhase::Opening);
    assert_eq!(s.step(FileEvent::Opened), FileAction::Idle);
    assert_eq!(s.step(FileEvent::Record), FileAction::YieldJob { record: 0 });
}

#[test]
fn open_failure_fails_construction() {
    let mut s = FileSource::opening();
    assert_eq!(s.step(FileEvent::OpenFailed), FileAction::FailConstruction);
    assert_eq!(s.phase, FilePhase::Ended);
    assert_eq!(s.step(FileEvent::Record), FileAction::Idle);
}

#[test]
fn three_well_formed_records_then_end() {
    let mut s = FileSource::opening();
    let events = vec![
        FileEvent::Opened,
        FileEvent::Record,
        FileEvent::Record,
        FileEvent::Record,
        FileEvent::EndOfFile,
    ];
    let acts = s.run(&events);
    assert_eq!(
        acts,
        vec![
            FileAction::Idle,
            FileAction::YieldJob { record: 0 },
            FileAction::YieldJob { record: 1 },
            FileAction::YieldJob { record: 2 },
            FileAction::EndStream,
        ]
    );
    assert_eq!(s.phase, FilePhase::Ended);
    assert_eq!(s.records_seen, 3);
}

#[test]
fn empty_file_just_ends() {
    let mut s = FileSource::opening();
    let acts = s.run(&vec![FileEvent::Opened, FileEvent::EndOfFile]);
    assert_eq!(acts, vec![FileAction::Idle, FileAction::EndStream]);
}

#[test]
fn one_malformed_record_among_four() {
    let mut s = FileSource::opening();
    let events = vec![
        FileEvent::Opened,
        FileEvent::Record,
        FileEvent::Malformed,
        FileEvent::Record,
        FileEvent::Record,
        FileEvent::EndOfFile,
    ];
    let acts = s.run(&events);
    assert_eq!(
        acts,
        vec![
            FileAction::Idle,
            FileAction::YieldJob { record: 0 },
            FileAction::YieldRecordError { record: 1 },
            FileAction::YieldJob { record: 2 },
            FileAction::YieldJob { record: 3 },
            FileAction::EndStream,
        ]
    );
}

#[test]
fn quit_while_reading_ends_the_stream() {
    let mut s = FileSource::opening();
    let acts = s.run(&vec![FileEvent::Opened, FileEvent::Record, FileEvent::Quit, FileEvent::Record]);
    assert_eq!(
        acts,
        vec![
            FileAction::Idle,
            FileAction::YieldJob { record: 0 },
            FileAction::EndStream,
            FileAction::Idle,
        ]
    );
}
