use std::cell::Cell;
use std::sync::atomic::{AtomicUsize, Ordering};

use rblock::raw::{address_of, reader_key};
use rblock::word::{ONE_READER, ONE_WRITER, PARKED_MASK, READERS_PARKED, WRITERS_PARKED};
use rblock::{
    RawReadBiasedRwLock, ReleaseFault, Seal, StateWord, Trace, WaitStep, Wake, UNLOCKED,
};

fn lock_with(state: usize) -> RawReadBiasedRwLock {
    RawReadBiasedRwLock { state: StateWord { cell: AtomicUsize::new(state) } }
}

fn new_trace() -> Trace {
    Trace::new(Seal { blank: () })
}

fn word_of(lock: &RawReadBiasedRwLock) -> usize {
    lock.state.cell.load(Ordering::Relaxed)
}

/// Waits as a writer until that is over or has to park.
fn writer_outcome(lock: &RawReadBiasedRwLock, carry: bool) -> WaitStep {
    let mut trace = new_trace();
    let mut wait = lock.begin_exclusive_wait(&mut trace);
    if carry {
        lock.resume_exclusive_wait(&mut wait, &mut trace);
    }
    loop {
        let step = lock.lock_exclusive_slow(&mut wait, &mut trace);
        if step != WaitStep::Retry {
            return step;
        }
    }
}

/// Waits as a reader until that is over or has to park.
fn reader_outcome(lock: &RawReadBiasedRwLock) -> WaitStep {
    let mut trace = new_trace();
    let mut wait = lock.begin_shared_wait(&mut trace);
    loop {
        let step = lock.lock_shared_slow(&mut wait, &mut trace);
        if step != WaitStep::Retry {
            return step;
        }
    }
}

struct Guarded {
    lock: RawReadBiasedRwLock,
    value: Cell<usize>,
}

impl Guarded {
    fn new(value: usize) -> Self {
        Guarded { lock: lock_with(UNLOCKED), value: Cell::new(value) }
    }

    fn read(&self, f: impl FnOnce(usize)) {
        lock_shared(&self.lock);
        f(self.value.get());
        assert_eq!(self.lock.unlock_shared(&mut new_trace()), Wake::Nobody);
    }

    fn write(&self, value: usize) {
        lock_exclusive(&self.lock);
        self.value.set(value);
        assert_eq!(self.lock.unlock_exclusive(&mut new_trace()), Ok(Wake::Nobody));
    }
}

/// Takes the lock as a reader where nobody is in the way.
fn lock_shared(lock: &RawReadBiasedRwLock) {
    let mut trace = new_trace();
    if let Some(mut wait) = lock.lock_shared(&mut trace) {
        let mut step = WaitStep::Retry;
        while step == WaitStep::Retry {
            step = lock.lock_shared_slow(&mut wait, &mut trace);
        }
        assert_eq!(step, WaitStep::Acquired);
    }
}

/// Takes the lock as a writer where nobody is in the way.
fn lock_exclusive(lock: &RawReadBiasedRwLock) {
    let mut trace = new_trace();
    if let Some(mut wait) = lock.lock_exclusive(&mut trace) {
        let mut step = WaitStep::Retry;
        while step == WaitStep::Retry {
            step = lock.lock_exclusive_slow(&mut wait, &mut trace);
        }
        assert_eq!(step, WaitStep::Acquired);
    }
}

#[test]
fn allows_multiple_readers() {
    let lock = Guarded::new(7usize);
    lock.read(|first| {
        lock.read(|second| {
            assert_eq!(first, 7);
            assert_eq!(second, 7);
        })
    });
    assert_eq!(word_of(&lock.lock), UNLOCKED);
}

#[test]
fn writer_updates_value() {
    let lock = Guarded::new(1usize);
    lock.write(2);
    lock.read(|value| assert_eq!(value, 2));
}

#[test]
fn values_are_read_back_by_the_slow_ways() {
    let lock = Guarded::new(7usize);
    assert_eq!(reader_outcome(&lock.lock), WaitStep::Acquired);
    assert_eq!(reader_outcome(&lock.lock), WaitStep::Acquired);
    assert_eq!(lock.value.get(), 7);
    assert_eq!(word_of(&lock.lock), 2 * ONE_READER);
    assert_eq!(lock.lock.unlock_shared(&mut new_trace()), Wake::Nobody);
    assert_eq!(lock.lock.unlock_shared(&mut new_trace()), Wake::Nobody);

    let lock = Guarded::new(1usize);
    assert_eq!(writer_outcome(&lock.lock, false), WaitStep::Acquired);
    lock.value.set(2);
    assert_eq!(lock.lock.unlock_exclusive(&mut new_trace()), Ok(Wake::Nobody));
    assert_eq!(reader_outcome(&lock.lock), WaitStep::Acquired);
    assert_eq!(lock.value.get(), 2);
}

#[test]
fn values_are_read_back_by_the_tries() {
    let mut trace = new_trace();
    let lock = Guarded::new(7usize);
    assert!(lock.lock.try_lock_shared(&mut trace));
    assert!(lock.lock.try_lock_shared(&mut trace));
    assert_eq!(lock.value.get(), 7);
    assert_eq!(lock.lock.unlock_shared(&mut trace), Wake::Nobody);
    assert_eq!(lock.lock.unlock_shared(&mut trace), Wake::Nobody);

    assert!(lock.lock.try_lock_exclusive(&mut trace));
    lock.value.set(2);
    assert_eq!(lock.lock.unlock_exclusive(&mut trace), Ok(Wake::Nobody));
    lock.read(|value| assert_eq!(value, 2));
}

#[test]
fn updates_add_up() {
    let lock = Guarded::new(0usize);
    for n in 1..=100 {
        let mut copy = 0;
        lock.read(|value| copy = value);
        lock.write(copy + 1);
        lock.read(|value| assert_eq!(value, n));
    }
}

#[test]
fn waiting_writer_does_not_gate_readers() {
    let mut trace = new_trace();
    let lock = lock_with(UNLOCKED);
    let value = Cell::new(0usize);
    lock_shared(&lock);

    assert_eq!(writer_outcome(&lock, false), WaitStep::Park);
    assert_eq!(word_of(&lock), ONE_READER | WRITERS_PARKED);
    assert!(lock.validate_writer_park(&mut trace));

    assert!(
        lock.try_lock_shared(&mut trace),
        "read-biased lock should allow readers while a writer waits"
    );
    assert_eq!(value.get(), 0);
    assert_eq!(lock.unlock_shared(&mut trace), Wake::Nobody);
    assert_eq!(lock.unlock_shared(&mut trace), Wake::OneWriter);
    assert_eq!(word_of(&lock), UNLOCKED);

    assert_eq!(writer_outcome(&lock, true), WaitStep::Acquired);
    assert_eq!(word_of(&lock), ONE_WRITER | WRITERS_PARKED);
    value.set(1);
    assert_eq!(lock.unlock_exclusive(&mut trace), Ok(Wake::OneWriter));
    lock_shared(&lock);
    assert_eq!(value.get(), 1);
}

#[test]
fn writer_keeps_everybody_out() {
    let mut trace = new_trace();
    let lock = lock_with(UNLOCKED);
    assert!(lock.lock_exclusive(&mut trace).is_none());
    assert_eq!(word_of(&lock), ONE_WRITER);
    assert!(!lock.try_lock_exclusive(&mut trace));
    assert!(!lock.try_lock_shared(&mut trace));
    assert!(!lock.try_lock_shared_fast(&mut trace));
    assert!(!lock.try_lock_shared_slow(&mut trace));
    assert!(lock.lock_shared(&mut trace).is_some());
    assert_eq!(word_of(&lock), ONE_WRITER);
}

#[test]
fn readers_keep_writers_out() {
    let mut trace = new_trace();
    let lock = lock_with(UNLOCKED);
    assert!(lock.lock_shared(&mut trace).is_none());
    assert!(!lock.try_lock_exclusive(&mut trace));
    assert!(lock.lock_exclusive(&mut trace).is_some());
    assert_eq!(word_of(&lock), ONE_READER);
}

#[test]
fn shared_slow_way_adds_one_reader() {
    let mut trace = new_trace();
    let lock = lock_with(3 * ONE_READER | WRITERS_PARKED);
    assert!(lock.try_lock_shared_slow(&mut trace));
    assert_eq!(word_of(&lock), 4 * ONE_READER | WRITERS_PARKED);
}

#[test]
fn full_count_turns_readers_away() {
    let mut trace = new_trace();
    let full = ONE_WRITER - ONE_READER;
    let lock = lock_with(full);
    assert!(!lock.try_lock_shared_fast(&mut trace));
    assert!(!lock.try_lock_shared_slow(&mut trace));
    assert!(!lock.try_lock_shared(&mut trace));
    assert_eq!(reader_outcome(&lock), WaitStep::Overflow);
    assert_eq!(word_of(&lock), full);

    let lock = lock_with(full - ONE_READER);
    assert!(lock.try_lock_shared_fast(&mut trace));
    assert_eq!(word_of(&lock), full);
}

#[test]
fn waiting_reader_announces_itself_and_parks() {
    let mut trace = new_trace();
    let lock = lock_with(ONE_WRITER);
    assert!(!lock.validate_reader_park(&mut trace));
    assert_eq!(reader_outcome(&lock), WaitStep::Park);
    assert_eq!(word_of(&lock), ONE_WRITER | READERS_PARKED);
    assert!(lock.validate_reader_park(&mut trace));

    assert_eq!(lock.unlock_exclusive(&mut trace), Ok(Wake::AllReaders));
    assert_eq!(word_of(&lock), UNLOCKED);
    assert!(!lock.validate_reader_park(&mut trace));
    assert_eq!(reader_outcome(&lock), WaitStep::Acquired);
    assert_eq!(word_of(&lock), ONE_READER);
}

#[test]
fn wait_spins_ten_times_before_it_parks() {
    let mut trace = new_trace();
    let lock = lock_with(ONE_WRITER);
    let mut reader = lock.begin_shared_wait(&mut trace);
    for _ in 0..10 {
        assert_eq!(lock.shared_wait_step(&mut reader, &mut trace), WaitStep::Spun);
        assert_eq!(word_of(&lock), ONE_WRITER);
    }
    assert_ne!(lock.shared_wait_step(&mut reader, &mut trace), WaitStep::Spun);
    let lock = lock_with(ONE_WRITER);
    let mut writer = lock.begin_exclusive_wait(&mut trace);
    for _ in 0..10 {
        assert_eq!(lock.exclusive_wait_step(&mut writer, &mut trace), WaitStep::Spun);
        assert_eq!(word_of(&lock), ONE_WRITER);
    }
    assert_ne!(lock.exclusive_wait_step(&mut writer, &mut trace), WaitStep::Spun);
    let lock = lock_with(ONE_WRITER);
    assert_eq!(reader_outcome(&lock), WaitStep::Park);
    assert_eq!(writer_outcome(&lock, false), WaitStep::Park);
    assert_eq!(word_of(&lock), ONE_WRITER | PARKED_MASK);
}

#[test]
fn writer_carries_the_parked_bit_after_a_park() {
    let mut trace = new_trace();
    let lock = lock_with(ONE_READER | WRITERS_PARKED);
    let mut wait = lock.begin_exclusive_wait(&mut trace);
    assert!(!wait.carry);
    assert_eq!(lock.lock_exclusive_slow(&mut wait, &mut trace), WaitStep::Park);
    assert!(!wait.carry);
    assert_eq!(lock.unlock_shared(&mut trace), Wake::OneWriter);
    lock.resume_exclusive_wait(&mut wait, &mut trace);
    assert!(wait.carry);
    assert_eq!(wait.state, UNLOCKED);
}

#[test]
fn wait_sees_the_lock_come_free() {
    let mut trace = new_trace();
    let lock = lock_with(ONE_WRITER);
    let mut reader = lock.begin_shared_wait(&mut trace);
    assert_eq!(lock.shared_wait_step(&mut reader, &mut trace), WaitStep::Spun);
    assert_eq!(lock.unlock_exclusive(&mut trace), Ok(Wake::Nobody));
    assert_eq!(lock.shared_wait_step(&mut reader, &mut trace), WaitStep::Spun);
    assert_eq!(reader.state, UNLOCKED);
    let mut step = WaitStep::Retry;
    while step == WaitStep::Retry {
        step = lock.lock_shared_slow(&mut reader, &mut trace);
    }
    assert_eq!(step, WaitStep::Acquired);
    assert_eq!(word_of(&lock), ONE_READER);
}

#[test]
fn wait_goes_on_from_a_stale_word() {
    let mut trace = new_trace();
    let lock = lock_with(ONE_READER);
    let mut reader = lock.begin_shared_wait(&mut trace);
    reader.state = 5 * ONE_READER;
    assert_eq!(lock.lock_shared_slow(&mut reader, &mut trace), WaitStep::Retry);
    assert_eq!(reader.state, ONE_READER);
    assert_eq!(word_of(&lock), ONE_READER);

    let mut writer = lock.begin_exclusive_wait(&mut trace);
    writer.state = UNLOCKED;
    assert_eq!(lock.lock_exclusive_slow(&mut writer, &mut trace), WaitStep::Retry);
    assert_eq!(writer.state, ONE_READER);
    assert_eq!(word_of(&lock), ONE_READER);
}

#[test]
fn last_reader_wakes_one_writer() {
    let mut trace = new_trace();
    let lock = lock_with(2 * ONE_READER | WRITERS_PARKED);
    assert_eq!(lock.unlock_shared(&mut trace), Wake::Nobody);
    assert_eq!(word_of(&lock), ONE_READER | WRITERS_PARKED);
    assert_eq!(lock.unlock_shared(&mut trace), Wake::OneWriter);
    assert_eq!(word_of(&lock), UNLOCKED);
}

#[test]
fn last_reader_leaves_writers_to_a_newcomer() {
    let mut trace = new_trace();
    let lock = lock_with(ONE_READER | WRITERS_PARKED);
    assert_eq!(lock.unlock_shared_slow(&mut trace), Wake::Nobody);
    assert_eq!(word_of(&lock), ONE_READER | WRITERS_PARKED);
}

#[test]
fn woken_writer_races_with_new_readers() {
    let mut trace = new_trace();
    let lock = lock_with(ONE_READER | WRITERS_PARKED);
    assert_eq!(lock.unlock_shared(&mut trace), Wake::OneWriter);
    assert!(lock.try_lock_shared(&mut trace));
    assert_eq!(writer_outcome(&lock, true), WaitStep::Park);
    assert_eq!(word_of(&lock), ONE_READER | WRITERS_PARKED);
}

#[test]
fn leaving_writer_prefers_parked_readers() {
    let mut trace = new_trace();
    let lock = lock_with(ONE_WRITER | PARKED_MASK);
    assert_eq!(lock.unlock_exclusive(&mut trace), Ok(Wake::AllReaders));
    assert_eq!(word_of(&lock), WRITERS_PARKED);
    assert!(!lock.try_lock_exclusive(&mut trace));
    assert!(lock.try_lock_shared(&mut trace));
    assert_eq!(lock.unlock_shared(&mut trace), Wake::OneWriter);
    assert_eq!(word_of(&lock), UNLOCKED);
}

#[test]
fn leaving_writer_wakes_one_parked_writer() {
    let mut trace = new_trace();
    let lock = lock_with(ONE_WRITER | WRITERS_PARKED);
    assert_eq!(lock.unlock_exclusive(&mut trace), Ok(Wake::OneWriter));
    assert_eq!(word_of(&lock), UNLOCKED);
}

#[test]
fn leaving_writer_faults_on_a_foreign_word() {
    let mut trace = new_trace();
    let lock = lock_with(ONE_READER);
    assert_eq!(
        lock.unlock_exclusive(&mut trace),
        Err(ReleaseFault::NotLocked { state: ONE_READER })
    );
    assert_eq!(word_of(&lock), ONE_READER);

    let lock = lock_with(ONE_WRITER);
    assert_eq!(lock.unlock_exclusive_slow(&mut trace), Err(ReleaseFault::NothingParked));
    assert_eq!(word_of(&lock), ONE_WRITER);
}

#[test]
fn waiting_writer_takes_a_free_word_with_its_parked_bit() {
    let lock = lock_with(WRITERS_PARKED);
    assert_eq!(writer_outcome(&lock, false), WaitStep::Acquired);
    assert_eq!(word_of(&lock), ONE_WRITER | WRITERS_PARKED);

    let lock = lock_with(UNLOCKED);
    assert_eq!(writer_outcome(&lock, false), WaitStep::Acquired);
    assert_eq!(word_of(&lock), ONE_WRITER);
}

#[test]
fn downgrade_keeps_one_reader() {
    let mut trace = new_trace();
    let lock = lock_with(ONE_WRITER);
    assert_eq!(lock.downgrade(&mut trace), Wake::Nobody);
    assert_eq!(word_of(&lock), ONE_READER);
    assert!(!lock.try_lock_exclusive(&mut trace));
    assert!(lock.try_lock_shared(&mut trace));

    let lock = lock_with(ONE_WRITER | PARKED_MASK);
    assert_eq!(lock.downgrade(&mut trace), Wake::AllReaders);
    assert_eq!(word_of(&lock), ONE_READER | WRITERS_PARKED);

    let lock = lock_with(ONE_WRITER | READERS_PARKED);
    assert_eq!(lock.downgrade(&mut trace), Wake::AllReaders);
    assert_eq!(word_of(&lock), ONE_READER);
}

#[test]
fn used_lock_ends_up_fresh() {
    let mut trace = new_trace();
    let lock = lock_with(UNLOCKED);
    for _ in 0..100 {
        assert!(lock.try_lock_exclusive(&mut trace));
        assert_eq!(reader_outcome(&lock), WaitStep::Park);
        assert_eq!(writer_outcome(&lock, false), WaitStep::Park);
        assert_eq!(lock.unlock_exclusive(&mut trace), Ok(Wake::AllReaders));
        assert_eq!(reader_outcome(&lock), WaitStep::Acquired);
        assert_eq!(lock.unlock_shared(&mut trace), Wake::OneWriter);
        assert_eq!(writer_outcome(&lock, true), WaitStep::Acquired);
        assert_eq!(lock.unlock_exclusive(&mut trace), Ok(Wake::OneWriter));
        assert_eq!(word_of(&lock), UNLOCKED);
    }
}

#[test]
fn queue_keys_come_from_the_address() {
    let lock = lock_with(UNLOCKED);
    let other = lock_with(UNLOCKED);
    let key = lock.writer_queue_key();
    assert_eq!(key, core::ptr::from_ref(&lock) as usize);
    assert_eq!(key, core::ptr::from_ref(&lock.state) as usize);
    assert_eq!(key, lock.writer_queue_key());
    assert_eq!(key, address_of(&lock));
    assert_eq!(lock.reader_queue_key(), key + 1);
    assert_ne!(key, other.writer_queue_key());
    assert_ne!(lock.reader_queue_key(), other.reader_queue_key());
    assert_ne!(lock.reader_queue_key(), other.writer_queue_key());
    assert_eq!(reader_key(64), 65);
}
