//! Ids for new tasks.

use crate::queue::list_contains;
use vstd::prelude::*;

verus! {

/// How often an id is drawn before the search for a free one is given up.
pub const GENERATE_ATTEMPTS: u32 = 64;

/// `rand::random::<u32>()`: a number drawn by the generator of the thread,
/// which is seeded from the operating system when the thread first draws
/// and panics where that fails. Nothing is claimed of the result: it is
/// random.
#[verifier::external_body]
fn random_u32() -> (n: u32) {
    rand::random::<u32>()
}

/// Draws ids for tasks.
pub struct TaskIdGenerator;

impl TaskIdGenerator {
    /// Draws an id. Nothing is known of it.
    pub fn generate() -> (id: u32) {
        random_u32()
    }

    /// Whether a drawn id can be given to a new task, given the ids that
    /// are taken.
    pub fn is_free(taken: &Vec<u32>, id: u32) -> (b: bool)
        ensures
            b == !taken@.contains(id),
    {
        !list_contains(taken, id)
    }

    /// The first of `draws` that is free. This is what `generate_unused`
    /// makes of the ids that it draws.
    pub fn pick_unused(taken: &Vec<u32>, draws: &Vec<u32>) -> (id: Option<u32>)
        ensures
            id == first_free(taken@, draws@),
    {
        let mut i: usize = 0;
        proof {
            assert(draws@.take(0) =~= Seq::<u32>::empty());
        }
        while i < draws.len()
            invariant
                i <= draws@.len(),
                first_free(taken@, draws@.take(i as int)).is_none(),
            decreases draws@.len() - i,
        {
            proof {
                assert(draws@.take(i + 1).drop_last() =~= draws@.take(i as int));
            }
            if Self::is_free(taken, draws[i]) {
                proof {
                    lemma_first_free_stays(taken@, draws@, i + 1);
                }
                return Some(draws[i]);
            }
            i = i + 1;
        }
        proof {
            assert(draws@.take(i as int) =~= draws@);
        }
        None
    }

    /// Draws ids until one is free, `GENERATE_ATTEMPTS` times at most, and
    /// returns the first that is free: there are draws of which the result
    /// is the first free one, and where none is returned, all the draws
    /// were made and each gave an id that is taken. With no id taken, the
    /// first draw is returned.
    pub fn generate_unused(taken: &Vec<u32>) -> (id: Option<u32>)
        ensures
            id.is_some() ==> !taken@.contains(id.unwrap()),
            exists|draws: Seq<u32>|
                draws.len() <= GENERATE_ATTEMPTS && id == #[trigger] first_free(taken@, draws)
                    && (id.is_none() ==> draws.len() == GENERATE_ATTEMPTS),
            taken@.len() == 0 ==> id.is_some(),
    {
        let ghost mut drawn: Seq<u32> = Seq::empty();
        let mut attempt: u32 = 0;
        while attempt < GENERATE_ATTEMPTS
            invariant
                attempt <= GENERATE_ATTEMPTS,
                drawn.len() == attempt,
                first_free(taken@, drawn).is_none(),
                attempt > 0 ==> taken@.len() > 0,
            decreases GENERATE_ATTEMPTS - attempt,
        {
            let id = Self::generate();
            proof {
                assert(drawn.push(id).drop_last() =~= drawn);
            }
            if Self::is_free(taken, id) {
                proof {
                    let draws = drawn.push(id);
                    assert(first_free(taken@, draws) == Some(id));
                }
                return Some(id);
            }
            proof {
                drawn = drawn.push(id);
            }
            attempt = attempt + 1;
        }
        proof {
            assert(first_free(taken@, drawn).is_none());
        }
        None
    }
}

/// The first of the ids drawn that is not taken, if there is one.
pub open spec fn first_free(taken: Seq<u32>, draws: Seq<u32>) -> Option<u32>
    decreases draws.len(),
{
    if draws.len() == 0 {
        None
    } else {
        match first_free(taken, draws.drop_last()) {
            Some(id) => Some(id),
            None => if taken.contains(draws.last()) {
                None
            } else {
                Some(draws.last())
            },
        }
    }
}

/// Once a free id is drawn, later draws do not count.
proof fn lemma_first_free_stays(taken: Seq<u32>, draws: Seq<u32>, n: int)
    requires
        0 <= n <= draws.len(),
        first_free(taken, draws.take(n)).is_some(),
    ensures
        first_free(taken, draws) == first_free(taken, draws.take(n)),
    decreases draws.len() - n,
{
    if n < draws.len() {
        assert(draws.take(n + 1).drop_last() =~= draws.take(n));
        lemma_first_free_stays(taken, draws, n + 1);
    } else {
        assert(draws.take(n) =~= draws);
    }
}

} // verus!
