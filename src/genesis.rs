use vstd::prelude::*;
use crate::hashing::course_id_of;
use crate::pallet::{keeps_courses, minted, new_course, Pallet};
use crate::types::{AccountId, Course, CourseId, CourseYear, Dna, Error, ExecContext};

verus! {

/// The courses that a registry starts with: an owner, a DNA, a year and the
/// credits of each.
pub struct GenesisConfig {
    pub courses: Vec<(AccountId, Dna, CourseYear, u8)>,
}

/// The course that a seed entry describes.
pub open spec fn seed_course(entry: (AccountId, Dna, CourseYear, u8), ctx: ExecContext) -> Course {
    new_course(entry.0, Some(entry.1), Some(entry.2), Some(entry.3), ctx)
}

/// `states` and `results` record a run that mints `entries` in order from
/// `start` and ends in `end`: each step is a mint of the next entry.
pub open spec fn seed_run(
    start: Pallet,
    end: Pallet,
    entries: Seq<(AccountId, Dna, CourseYear, u8)>,
    ctx: ExecContext,
    states: Seq<Pallet>,
    results: Seq<Result<CourseId, Error>>,
) -> bool {
    &&& states.len() == entries.len() + 1
    &&& results.len() == entries.len()
    &&& states[0] == start
    &&& states.last() == end
    &&& forall|i: int|
        0 <= i < entries.len() ==> #[trigger] minted(
            states[i],
            states[i + 1],
            seed_course(entries[i], ctx),
            course_id_of(seed_course(entries[i], ctx)),
            results[i],
        )
}

impl Default for GenesisConfig {
    fn default() -> (r: GenesisConfig)
        ensures
            r.courses@.len() == 0,
    {
        GenesisConfig { courses: Vec::new() }
    }
}

impl GenesisConfig {
    /// Mints each entry in order into `pallet`, each success emitting
    /// `Created`. A failed mint leaves the registry as it was and the next
    /// entries are still minted.
    pub fn build(&self, pallet: &mut Pallet, ctx: &ExecContext)
        requires
            old(pallet).wf(),
        ensures
            final(pallet).wf(),
            keeps_courses(*old(pallet), *final(pallet)),
            exists|states: Seq<Pallet>, results: Seq<Result<CourseId, Error>>| #[trigger]
                seed_run(*old(pallet), *final(pallet), self.courses@, *ctx, states, results),
    {
        let ghost mut states: Seq<Pallet> = seq![*pallet];
        let ghost mut results: Seq<Result<CourseId, Error>> = Seq::empty();
        let mut i: usize = 0;
        while i < self.courses.len()
            invariant
                i <= self.courses@.len(),
                pallet.wf(),
                keeps_courses(*old(pallet), *pallet),
                states.len() == i + 1,
                results.len() == i,
                states[0] == *old(pallet),
                states.last() == *pallet,
                forall|j: int|
                    0 <= j < i ==> #[trigger] minted(
                        states[j],
                        states[j + 1],
                        seed_course(self.courses@[j], *ctx),
                        course_id_of(seed_course(self.courses@[j], *ctx)),
                        results[j],
                    ),
            decreases self.courses@.len() - i,
        {
            let (owner, dna, course_year, credits) = self.courses[i];
            let r = pallet.mint(owner, Some(dna), Some(course_year), Some(credits), ctx);
            proof {
                states = states.push(*pallet);
                results = results.push(r);
            }
            i = i + 1;
        }
        assert(seed_run(*old(pallet), *pallet, self.courses@, *ctx, states, results));
    }
}

} // verus!
