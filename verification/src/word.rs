//! The state word of the lock: how it is laid out, and what each party decides
//! when it sees a given value of it.
//!
//! The two lowest bits say whether readers or writers are parked. The bits above
//! them count holders: the number of readers inside, or, with every bit set, one
//! writer.
use vstd::prelude::*;

verus! {

/// The word of a fresh lock: nobody inside, nobody parked.
pub const UNLOCKED: usize = 0;

/// Set while readers are parked behind a writer.
pub const READERS_PARKED: usize = 0b0001;

/// Set while writers are parked.
pub const WRITERS_PARKED: usize = 0b0010;

/// What one reader adds to the word.
pub const ONE_READER: usize = 0b0100;

/// Both parked bits.
pub const PARKED_MASK: usize = READERS_PARKED | WRITERS_PARKED;

/// What an active writer adds to the word: every bit of the holder count.
pub const ONE_WRITER: usize = !PARKED_MASK;

/// The holder count of a word.
pub open spec fn holders(word: usize) -> nat {
    (word / 4) as nat
}

/// The holder count that stands for an active writer.
pub open spec fn writer_mark() -> nat {
    usize::MAX as nat / 4
}

/// A writer is inside.
pub open spec fn writer_active(word: usize) -> bool {
    holders(word) == writer_mark()
}

/// The bit for parked readers is set.
pub open spec fn readers_parked(word: usize) -> bool {
    word % 2 == 1
}

/// The bit for parked writers is set.
pub open spec fn writers_parked(word: usize) -> bool {
    word / 2 % 2 == 1
}

/// One more reader can come in: no writer is active and the count, once raised,
/// does not read as a writer.
pub open spec fn reader_fits(word: usize) -> bool {
    holders(word) + 1 < writer_mark()
}

/// The word with the given holder count and parked bits.
pub open spec fn compose(count: nat, readers: bool, writers: bool) -> int {
    4 * count + (if writers {
        2int
    } else {
        0int
    }) + (if readers {
        1int
    } else {
        0int
    })
}

/// A word is its holder count and its two parked bits.
pub proof fn lemma_compose(word: usize)
    ensures
        word == compose(holders(word), readers_parked(word), writers_parked(word)),
        holders(word) <= writer_mark(),
{
}

/// The constants as numbers.
pub proof fn lemma_constants()
    ensures
        PARKED_MASK == 3,
        ONE_WRITER == usize::MAX - 3,
        ONE_WRITER == compose(writer_mark(), false, false),
        ONE_WRITER | PARKED_MASK == usize::MAX,
        usize::MAX == compose(writer_mark(), true, true),
        writer_mark() >= 0x3fff_ffff,
{
    assert(READERS_PARKED | WRITERS_PARKED == 3) by (bit_vector);
    let top: usize = usize::MAX;
    assert(top <= !PARKED_MASK + 3 && !PARKED_MASK + 3 == !PARKED_MASK | 3) by (bit_vector);
    assert(top <= ONE_WRITER | PARKED_MASK) by (bit_vector);
}

/// What the masks used on the word mean in terms of its parts.
pub proof fn lemma_masks(word: usize)
    ensures
        word & ONE_WRITER == ONE_WRITER <==> writer_active(word),
        word & ONE_WRITER == 0 <==> holders(word) == 0,
        word & READERS_PARKED != 0 <==> readers_parked(word),
        word & WRITERS_PARKED != 0 <==> writers_parked(word),
        word & PARKED_MASK == word % 4,
{
    lemma_constants();
    assert(word & ONE_WRITER == ONE_WRITER <==> word / 4 == ONE_WRITER / 4) by (bit_vector);
    assert(word & ONE_WRITER == 0 <==> word / 4 == 0) by (bit_vector);
    assert(word & READERS_PARKED != 0 <==> word % 2 == 1) by (bit_vector);
    assert(word & WRITERS_PARKED != 0 <==> word / 2 % 2 == 1) by (bit_vector);
    assert(word & PARKED_MASK == word % 4) by (bit_vector);
}

/// Setting a parked bit leaves the rest of the word as it is.
pub proof fn lemma_set_parked(word: usize)
    ensures
        word | READERS_PARKED == compose(holders(word), true, writers_parked(word)),
        word | WRITERS_PARKED == compose(holders(word), readers_parked(word), true),
{
    assert(word | READERS_PARKED == (if word % 2 == 1 {
        word as int
    } else {
        word + 1
    })) by (bit_vector);
    assert(word | WRITERS_PARKED == (if word / 2 % 2 == 1 {
        word as int
    } else {
        word + 2
    })) by (bit_vector);
}

/// Taking a free word for a writer fills the holder count.
pub proof fn lemma_set_writer(word: usize)
    requires
        holders(word) == 0,
    ensures
        word | ONE_WRITER == compose(writer_mark(), readers_parked(word), writers_parked(word)),
        word | ONE_WRITER | WRITERS_PARKED == compose(
            writer_mark(),
            readers_parked(word),
            true,
        ),
        word | ONE_WRITER | 0 == word | ONE_WRITER,
{
    lemma_constants();
    assert(word / 4 == 0 ==> word | ONE_WRITER == ONE_WRITER + word) by (bit_vector);
    lemma_set_parked(word | ONE_WRITER);
    let taken: usize = word | ONE_WRITER;
    assert(taken | 0 == taken) by (bit_vector);
}

/// Masking a writer's word with one reader and the bit for parked writers turns
/// the writer into a single reader and forgets parked readers.
pub proof fn lemma_downgrade(word: usize)
    requires
        writer_active(word),
    ensures
        word & (ONE_READER | WRITERS_PARKED) == compose(1, false, writers_parked(word)),
{
    lemma_constants();
    assert(word / 4 == ONE_WRITER / 4 ==> word & (ONE_READER | WRITERS_PARKED) == 4 + (if word / 2
        % 2 == 1 { 2int } else { 0int })) by (bit_vector);
}

/// What a reader does that waits for the lock.
#[derive(Debug, Clone, Copy, PartialEq, Eq, Structural)]
pub enum ReaderMove {
    /// Go in: replace the word by `new_state`.
    Enter { new_state: usize },
    /// Give up: one more reader would read as a writer.
    Overflow,
    /// Spin, or announce that readers park: replace the word by `new_state`.
    Mark { new_state: usize },
    /// Park: it has been announced already.
    Park,
}

/// What a writer does that waits for the lock.
#[derive(Debug, Clone, Copy, PartialEq, Eq, Structural)]
pub enum WriterMove {
    /// Go in: replace the word by `new_state`.
    Enter { new_state: usize },
    /// Spin, or announce that writers park: replace the word by `new_state`.
    Mark { new_state: usize },
    /// Park: it has been announced already.
    Park,
}

/// Who is parked behind a writer that leaves.
#[derive(Debug, Clone, Copy, PartialEq, Eq, Structural)]
pub enum Parked {
    Readers,
    Writers,
    Both,
}

/// Why a writer cannot leave: the word is not that of a lock which this writer
/// holds.
#[derive(Debug, Clone, Copy, PartialEq, Eq, Structural)]
pub enum ReleaseFault {
    /// No writer is inside.
    NotLocked { state: usize },
    /// The word has changed from a plain writer's, and yet nobody is parked.
    NothingParked,
    /// The word changed in another way than that the second parked bit was set.
    WordChanged { new_state: usize },
}

/// The word after one more reader, where one fits: an active writer and a count
/// that would read as a writer both turn the reader away. The parked bits play no
/// part.
pub fn admit_reader(state: usize) -> (admitted: Option<usize>)
    ensures
        admitted == (if reader_fits(state) {
            Some((state + ONE_READER) as usize)
        } else {
            None
        }),
{
    proof {
        lemma_constants();
    }
    let Some(new_state) = state.checked_add(ONE_READER) else {
        return None;
    };
    proof {
        lemma_masks(new_state);
    }
    if new_state & ONE_WRITER == ONE_WRITER {
        return None;
    }
    Some(new_state)
}

/// What a waiting reader does that sees `state`. Only an active writer keeps it
/// waiting.
pub fn reader_move(state: usize) -> (next: ReaderMove)
    ensures
        reader_fits(state) ==> next == (ReaderMove::Enter {
            new_state: (state + ONE_READER) as usize,
        }),
        !reader_fits(state) && !writer_active(state) ==> next == ReaderMove::Overflow,
        writer_active(state) && !readers_parked(state) ==> (next matches ReaderMove::Mark {
            new_state,
        } && new_state == compose(holders(state), true, writers_parked(state))),
        writer_active(state) && readers_parked(state) ==> next == ReaderMove::Park,
{
    proof {
        lemma_constants();
        lemma_masks(state);
        lemma_set_parked(state);
    }
    if let Some(new_state) = state.checked_add(ONE_READER) {
        proof {
            lemma_masks(new_state);
        }
        if new_state & ONE_WRITER == ONE_WRITER {
            ReaderMove::Overflow
        } else {
            ReaderMove::Enter { new_state }
        }
    } else if state & READERS_PARKED == 0 {
        ReaderMove::Mark { new_state: state | READERS_PARKED }
    } else {
        ReaderMove::Park
    }
}

/// What a waiting writer does that sees `state`. One that has parked before
/// carries the bit for parked writers in with it, since others may still be parked.
pub fn writer_move(state: usize, carry: bool) -> (next: WriterMove)
    ensures
        holders(state) == 0 ==> (next matches WriterMove::Enter { new_state } && new_state
            == compose(writer_mark(), readers_parked(state), writers_parked(state) || carry)),
        holders(state) != 0 && !writers_parked(state) ==> (next matches WriterMove::Mark {
            new_state,
        } && new_state == compose(holders(state), readers_parked(state), true)),
        holders(state) != 0 && writers_parked(state) ==> next == WriterMove::Park,
{
    proof {
        lemma_masks(state);
        lemma_set_parked(state);
        if holders(state) == 0 {
            lemma_set_writer(state);
        }
    }
    if state & ONE_WRITER == 0 {
        let acquire_with: usize = if carry {
            WRITERS_PARKED
        } else {
            0
        };
        WriterMove::Enter { new_state: state | ONE_WRITER | acquire_with }
    } else if state & WRITERS_PARKED == 0 {
        WriterMove::Mark { new_state: state | WRITERS_PARKED }
    } else {
        WriterMove::Park
    }
}

/// A reader that sees `state` with the queue locked may go to sleep: a writer is
/// inside, and knows that readers are parked.
pub fn reader_may_sleep(state: usize) -> (sleep: bool)
    ensures
        sleep == (writer_active(state) && readers_parked(state)),
{
    proof {
        lemma_masks(state);
    }
    state & ONE_WRITER == ONE_WRITER && state & READERS_PARKED != 0
}

/// A writer that sees `state` with the queue locked may go to sleep: somebody is
/// inside, and the word says that writers are parked.
pub fn writer_may_sleep(state: usize) -> (sleep: bool)
    ensures
        sleep == (holders(state) != 0 && writers_parked(state)),
{
    proof {
        lemma_masks(state);
    }
    state & ONE_WRITER != 0 && state & WRITERS_PARKED != 0
}

/// A reader that leaves and saw `state` was the last one, with writers parked.
pub fn last_reader_with_writers_parked(state: usize) -> (last: bool)
    ensures
        last == (state == compose(1, false, true)),
{
    assert(ONE_READER | WRITERS_PARKED == 6) by (bit_vector);
    state == (ONE_READER | WRITERS_PARKED)
}

/// Who is parked, as a writer sees it that cannot leave by the short way.
pub fn parked_behind_writer(state: usize) -> (parked: Result<Parked, ReleaseFault>)
    ensures
        !writer_active(state) ==> parked == Err::<Parked, _>(ReleaseFault::NotLocked { state }),
        writer_active(state) ==> parked == (match (
            readers_parked(state),
            writers_parked(state),
        ) {
            (false, false) => Err(ReleaseFault::NothingParked),
            (true, false) => Ok(Parked::Readers),
            (false, true) => Ok(Parked::Writers),
            (true, true) => Ok(Parked::Both),
        }),
{
    proof {
        lemma_constants();
        lemma_masks(state);
    }
    if state & ONE_WRITER != ONE_WRITER {
        return Err(ReleaseFault::NotLocked { state });
    }
    let parked: usize = state & PARKED_MASK;
    if parked == 0 {
        Err(ReleaseFault::NothingParked)
    } else if parked == PARKED_MASK {
        Ok(Parked::Both)
    } else if parked == READERS_PARKED {
        Ok(Parked::Readers)
    } else {
        Ok(Parked::Writers)
    }
}

/// Who is parked, as a leaving writer learns it that saw one parked bit and then
/// found the word changed to `new_state`: the second bit came up.
pub fn parked_meanwhile(new_state: usize) -> (parked: Result<Parked, ReleaseFault>)
    ensures
        parked == (if new_state == usize::MAX {
            Ok(Parked::Both)
        } else {
            Err(ReleaseFault::WordChanged { new_state })
        }),
{
    proof {
        lemma_constants();
    }
    if new_state == ONE_WRITER | PARKED_MASK {
        Ok(Parked::Both)
    } else {
        Err(ReleaseFault::WordChanged { new_state })
    }
}

/// Readers are parked, as a writer sees it that turns into a reader.
pub fn readers_wait(state: usize) -> (parked: bool)
    ensures
        parked == readers_parked(state),
{
    proof {
        lemma_masks(state);
    }
    state & READERS_PARKED != 0
}

} // verus!
