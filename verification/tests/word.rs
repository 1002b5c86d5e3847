use rblock::word::{
    admit_reader, last_reader_with_writers_parked, parked_behind_writer, parked_meanwhile,
    reader_may_sleep, reader_move, readers_wait, writer_may_sleep, writer_move, Parked,
    ReaderMove, ReleaseFault, WriterMove, ONE_READER, ONE_WRITER, PARKED_MASK, READERS_PARKED, UNLOCKED, WRITERS_PARKED,
};

#[test]
fn layout_of_the_word() {
    assert_eq!(UNLOCKED, 0);
    assert_eq!(READERS_PARKED, 1);
    assert_eq!(WRITERS_PARKED, 2);
    assert_eq!(PARKED_MASK, 3);
    assert_eq!(ONE_READER, 4);
    assert_eq!(ONE_WRITER, usize::MAX - 3);
}

#[test]
fn readers_are_let_in_beside_readers() {
    assert_eq!(admit_reader(0), Some(4));
    assert_eq!(admit_reader(4), Some(8));
    assert_eq!(admit_reader(WRITERS_PARKED), Some(6));
    assert_eq!(admit_reader(8 | WRITERS_PARKED), Some(14));
    assert_eq!(admit_reader(ONE_WRITER - 8), Some(ONE_WRITER - 4));
}

#[test]
fn readers_are_turned_away() {
    assert_eq!(admit_reader(ONE_WRITER), None);
    assert_eq!(admit_reader(usize::MAX), None);
    assert_eq!(admit_reader(ONE_WRITER - 4), None);
    assert_eq!(admit_reader(ONE_WRITER - 4 | WRITERS_PARKED), None);
}

#[test]
fn moves_of_a_waiting_reader() {
    assert_eq!(reader_move(8), ReaderMove::Enter { new_state: 12 });
    assert_eq!(reader_move(WRITERS_PARKED), ReaderMove::Enter { new_state: 6 });
    assert_eq!(reader_move(ONE_WRITER - 4), ReaderMove::Overflow);
    assert_eq!(reader_move(ONE_WRITER), ReaderMove::Mark { new_state: ONE_WRITER | 1 });
    assert_eq!(reader_move(ONE_WRITER | 2), ReaderMove::Mark { new_state: usize::MAX });
    assert_eq!(reader_move(ONE_WRITER | 1), ReaderMove::Park);
    assert_eq!(reader_move(usize::MAX), ReaderMove::Park);
}

#[test]
fn moves_of_a_waiting_writer() {
    assert_eq!(writer_move(0, false), WriterMove::Enter { new_state: ONE_WRITER });
    assert_eq!(writer_move(0, true), WriterMove::Enter { new_state: ONE_WRITER | 2 });
    assert_eq!(writer_move(2, false), WriterMove::Enter { new_state: ONE_WRITER | 2 });
    assert_eq!(writer_move(4, true), WriterMove::Mark { new_state: 6 });
    assert_eq!(writer_move(ONE_WRITER | 1, false), WriterMove::Mark { new_state: usize::MAX });
    assert_eq!(writer_move(6, false), WriterMove::Park);
    assert_eq!(writer_move(usize::MAX, true), WriterMove::Park);
}

#[test]
fn who_may_sleep() {
    assert!(reader_may_sleep(ONE_WRITER | READERS_PARKED));
    assert!(!reader_may_sleep(ONE_WRITER));
    assert!(!reader_may_sleep(ONE_READER | READERS_PARKED));
    assert!(writer_may_sleep(ONE_WRITER | WRITERS_PARKED));
    assert!(writer_may_sleep(ONE_READER | WRITERS_PARKED));
    assert!(!writer_may_sleep(WRITERS_PARKED));
    assert!(!writer_may_sleep(ONE_READER));
}

#[test]
fn who_is_woken_by_whom() {
    assert!(last_reader_with_writers_parked(6));
    assert!(!last_reader_with_writers_parked(4));
    assert!(!last_reader_with_writers_parked(7));
    assert!(!last_reader_with_writers_parked(10));
    assert!(readers_wait(ONE_WRITER | 1));
    assert!(!readers_wait(ONE_WRITER | 2));
    assert_eq!(parked_behind_writer(ONE_WRITER | 1), Ok(Parked::Readers));
    assert_eq!(parked_behind_writer(ONE_WRITER | 2), Ok(Parked::Writers));
    assert_eq!(parked_behind_writer(usize::MAX), Ok(Parked::Both));
    assert_eq!(parked_behind_writer(ONE_WRITER), Err(ReleaseFault::NothingParked));
    assert_eq!(parked_behind_writer(8 | 2), Err(ReleaseFault::NotLocked { state: 10 }));
    assert_eq!(parked_meanwhile(usize::MAX), Ok(Parked::Both));
    assert_eq!(
        parked_meanwhile(ONE_WRITER | 2),
        Err(ReleaseFault::WordChanged { new_state: ONE_WRITER | 2 })
    );
    assert_eq!(parked_meanwhile(0), Err(ReleaseFault::WordChanged { new_state: 0 }));
}
