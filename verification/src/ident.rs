//! Operation identifiers for the lock journal.
//!
//! Every operation tags the lock events it records with a short random
//! identifier, so that the events of operations that contend for a lock can
//! be told apart in a journal or a log.
use rand::distributions::Alphanumeric;
use rand::{thread_rng, Rng};
use vstd::prelude::*;

verus! {

/// The number of characters of an operation identifier.
pub const LOCK_ID_LENGTH: usize = 8;

/// Whether `c` is an ASCII letter or digit.
pub open spec fn is_alphanumeric(c: char) -> bool {
    ||| 0x30 <= c as u32 <= 0x39
    ||| 0x41 <= c as u32 <= 0x5a
    ||| 0x61 <= c as u32 <= 0x7a
}

/// Whether `id` has the shape of an operation identifier: `LOCK_ID_LENGTH`
/// ASCII letters and digits.
pub open spec fn is_lock_id(id: Seq<char>) -> bool {
    &&& id.len() == LOCK_ID_LENGTH
    &&& forall|i: int| 0 <= i < id.len() ==> is_alphanumeric(#[trigger] id[i])
}

/// There are operation identifiers: eight times the letter `a` is one.
pub proof fn lemma_lock_id_exists() -> (id: Seq<char>)
    ensures
        is_lock_id(id),
{
    Seq::new(LOCK_ID_LENGTH as nat, |i: int| 'a')
}

/// `String::push` of the standard library appends the given character to the
/// end of the string.
pub assume_specification[ String::push ](s: &mut String, ch: char)
    ensures
        final(s)@ == old(s)@.push(ch),
;

/// Draws one character with `rand::Rng::sample`, from the generator that
/// `rand::thread_rng` hands out and under the distribution
/// `rand::distributions::Alphanumeric`. The distribution picks from the
/// sixty-two characters `A` to `Z`, `a` to `z` and `0` to `9`; which of them
/// comes is left to chance, so the contract says only that the result is one
/// of them, and two calls may differ. The generator of a thread is seeded
/// from the operating system when the thread first asks for it, and
/// `thread_rng` panics if that fails.
#[verifier::external_body]
fn sample_alphanumeric() -> (c: char)
    ensures
        is_alphanumeric(c),
{
    thread_rng().sample(Alphanumeric)
}

/// Draws a fresh operation identifier.
pub fn draw_lock_id() -> (id: String)
    ensures
        is_lock_id(id@),
{
    let mut id = String::new();
    let mut drawn: usize = 0;
    while drawn < LOCK_ID_LENGTH
        invariant
            drawn <= LOCK_ID_LENGTH,
            id@.len() == drawn,
            forall|i: int| 0 <= i < id@.len() ==> is_alphanumeric(#[trigger] id@[i]),
        decreases LOCK_ID_LENGTH - drawn,
    {
        let c = sample_alphanumeric();
        id.push(c);
        drawn = drawn + 1;
    }
    id
}

} // verus!
