use vstd::prelude::*;
use std::collections::HashMap;
use crate::currency::{Currency, ExistenceRequirement};
use crate::hashing::{course_id_of, gen_dna, gen_dna_of, hash_of_course, mix_dna, mixed};
use crate::types::{
    AccountId, Balance, Course, CourseId, CourseYear, CurrencyError, Dna, Error, Event, ExecContext,
    BASE_CREDITS,
};

verus! {

broadcast use vstd::std_specs::hash::group_hash_axioms;

/// The course registry: the courses by identifier, the number of courses ever
/// created, and for each account the bounded list of the courses it owns.
/// Every operation either succeeds as a whole or leaves the registry as it
/// was.
pub struct Pallet {
    courses: Vec<(CourseId, Course)>,
    courses_map: Ghost<Map<CourseId, Course>>,
    count_for_courses: u64,
    owned: HashMap<AccountId, Vec<CourseId>>,
    max_courses_owned: u32,
    events: Vec<Event>,
}

/// The list `s` with its element at `k` replaced by its last one, and the last
/// removed: what a swap-remove at `k` leaves.
pub open spec fn swap_removed(s: Seq<CourseId>, k: int) -> Seq<CourseId> {
    s.update(k, s.last()).drop_last()
}

/// The position of `id` in `s`, where `s` holds it.
pub open spec fn position_of(s: Seq<CourseId>, id: CourseId) -> int {
    choose|k: int| 0 <= k < s.len() && s[k] == id
}

/// What a mint of `course` under `course_id` does to the registry and returns.
pub open spec fn minted(
    old: Pallet,
    new: Pallet,
    course: Course,
    course_id: CourseId,
    r: Result<CourseId, Error>,
) -> bool {
    &&& (r == Err::<CourseId, Error>(Error::CountForCoursesOverflow)) <==> old.count() == u64::MAX
    &&& (r == Err::<CourseId, Error>(Error::CourseExists)) <==> (old.count() < u64::MAX
        && old.courses_view().contains_key(course_id))
    &&& (r == Err::<CourseId, Error>(Error::ExceedMaxCourseOwned)) <==> (old.count() < u64::MAX
        && !old.courses_view().contains_key(course_id) && old.owned_by(course.owner).len()
        >= old.max_owned())
    &&& r is Ok <==> (old.count() < u64::MAX && !old.courses_view().contains_key(course_id)
        && old.owned_by(course.owner).len() < old.max_owned())
    &&& r is Err ==> new == old
    &&& r is Ok ==> {
        &&& r == Ok::<CourseId, Error>(course_id)
        &&& new.courses_view() == old.courses_view().insert(course_id, course)
        &&& forall|a: AccountId| #[trigger]
            new.owned_by(a) == if a == course.owner {
                old.owned_by(a).push(course_id)
            } else {
                old.owned_by(a)
            }
        &&& new.count() == old.count() + 1
        &&& new.max_owned() == old.max_owned()
        &&& new.events_view() == old.events_view().push(Event::Created(course.owner, course_id))
    }
}

/// No course of `old` is missing from `new`.
pub open spec fn keeps_courses(old: Pallet, new: Pallet) -> bool {
    old.courses_view().dom().subset_of(new.courses_view().dom())
}

/// A unit result carrying `course_id` on success.
pub open spec fn with_id(r: Result<(), Error>, course_id: CourseId) -> Result<CourseId, Error> {
    match r {
        Ok(_) => Ok(course_id),
        Err(e) => Err(e),
    }
}

/// An asking price is set and `bid_price` reaches it.
pub open spec fn bid_covers(price: Option<Balance>, bid_price: Balance) -> bool {
    match price {
        Some(ask) => ask <= bid_price,
        None => false,
    }
}

/// Every test that `buy_course` makes before it moves any money passes.
pub open spec fn buy_allowed(p: Pallet, buyer_balance: Balance, buyer: AccountId, course_id: CourseId, bid_price: Balance) -> bool {
    &&& p.courses_view().contains_key(course_id)
    &&& p.courses_view()[course_id].owner != buyer
    &&& bid_covers(p.courses_view()[course_id].price, bid_price)
    &&& buyer_balance >= bid_price
    &&& p.owned_by(buyer).len() < p.max_owned()
}

/// The course that a mint builds from its arguments: the given DNA or a fresh
/// one, the given year or `First`, the given credits or the base credits, no
/// price.
pub open spec fn new_course(
    owner: AccountId,
    dna: Option<Dna>,
    course_year: Option<CourseYear>,
    credits: Option<u8>,
    ctx: ExecContext,
) -> Course {
    Course {
        dna: match dna {
            Some(d) => d,
            None => gen_dna_of(ctx),
        },
        price: None,
        course_year: match course_year {
            Some(y) => y,
            None => CourseYear::First,
        },
        credits: match credits {
            Some(c) => c,
            None => BASE_CREDITS,
        },
        owner,
    }
}

/// The list of `a` once `course_id` has been swap-removed from the list of
/// its owner `prev`.
pub open spec fn owned_without(old: Pallet, prev: AccountId, course_id: CourseId, a: AccountId) -> Seq<
    CourseId,
> {
    if a == prev {
        swap_removed(old.owned_by(prev), position_of(old.owned_by(prev), course_id))
    } else {
        old.owned_by(a)
    }
}

/// What moving the course `course_id` to `to` does to the registry: the
/// course gets owner `to` and no price; its identifier is swap-removed from
/// its former owner's list and appended to the list of `to`.
pub open spec fn transferred(old: Pallet, new: Pallet, course_id: CourseId, to: AccountId) -> bool {
    let prev = old.courses_view()[course_id].owner;
    &&& new.courses_view() == old.courses_view().insert(
        course_id,
        (Course { owner: to, price: None, ..old.courses_view()[course_id] }),
    )
    &&& forall|a: AccountId| #[trigger]
        new.owned_by(a) == if a == to {
            owned_without(old, prev, course_id, a).push(course_id)
        } else {
            owned_without(old, prev, course_id, a)
        }
    &&& new.count() == old.count()
    &&& new.max_owned() == old.max_owned()
}

proof fn lemma_push_fresh(s: Seq<CourseId>, x: CourseId)
    requires
        s.no_duplicates(),
        !s.contains(x),
    ensures
        s.push(x).no_duplicates(),
        forall|y: CourseId| #[trigger] s.push(x).contains(y) <==> (s.contains(y) || y == x),
{
    let t = s.push(x);
    assert forall|y: CourseId| #[trigger] t.contains(y) <==> (s.contains(y) || y == x) by {
        if t.contains(y) {
            let k = choose|k: int| 0 <= k < t.len() && t[k] == y;
            if k < s.len() {
                assert(s[k] == y);
            }
        }
        if s.contains(y) {
            let k = choose|k: int| 0 <= k < s.len() && s[k] == y;
            assert(t[k] == y);
        }
        if y == x {
            assert(t[s.len() as int] == y);
        }
    }
    assert forall|i: int, j: int| 0 <= i < t.len() && 0 <= j < t.len() && i != j implies t[i]
        != t[j] by {
        if i < s.len() && j < s.len() {
        } else if i < s.len() {
            assert(s.contains(t[i]));
        } else if j < s.len() {
            assert(s.contains(t[j]));
        }
    }
}

proof fn lemma_swap_remove(s: Seq<CourseId>, k: int)
    requires
        s.no_duplicates(),
        0 <= k < s.len(),
    ensures
        swap_removed(s, k).no_duplicates(),
        swap_removed(s, k).len() == s.len() - 1,
        forall|y: CourseId| #[trigger]
            swap_removed(s, k).contains(y) <==> (s.contains(y) && y != s[k]),
{
    let t = swap_removed(s, k);
    let n = s.len() - 1;
    assert forall|i: int| 0 <= i < t.len() implies #[trigger] t[i] == (if i == k {
        s[n]
    } else {
        s[i]
    }) by {}
    assert forall|y: CourseId| #[trigger] t.contains(y) <==> (s.contains(y) && y != s[k]) by {
        if t.contains(y) {
            let i = choose|i: int| 0 <= i < t.len() && t[i] == y;
            if i == k {
                assert(s[n] == y);
            } else {
                assert(s[i] == y);
            }
        }
        if s.contains(y) && y != s[k] {
            let i = choose|i: int| 0 <= i < s.len() && s[i] == y;
            if i == n {
                assert(t[k] == y);
            } else {
                assert(t[i] == y);
            }
        }
    }
    assert forall|i: int, j: int| 0 <= i < t.len() && 0 <= j < t.len() && i != j implies t[i]
        != t[j] by {
        let si = if i == k {
            n
        } else {
            i
        };
        let sj = if j == k {
            n
        } else {
            j
        };
        assert(t[i] == s[si]);
        assert(t[j] == s[sj]);
    }
}

fn ids_equal(a: &CourseId, b: &CourseId) -> (r: bool)
    ensures
        r == (*a == *b),
{
    let mut i: usize = 0;
    while i < 32
        invariant
            i <= 32,
            forall|j: int| 0 <= j < i ==> a[j] == b[j],
        decreases 32 - i,
    {
        if a[i] != b[i] {
            return false;
        }
        i = i + 1;
    }
    assert(*a =~= *b);
    true
}

/// Two registries that differ in their events alone have the same views.
proof fn lemma_same_store(p: Pallet, q: Pallet)
    requires
        p.courses == q.courses,
        p.courses_map == q.courses_map,
        p.owned == q.owned,
        p.count_for_courses == q.count_for_courses,
        p.max_courses_owned == q.max_courses_owned,
    ensures
        p.wf() ==> q.wf(),
        p.courses_view() == q.courses_view(),
        forall|a: AccountId| #[trigger] q.owned_by(a) == p.owned_by(a),
        p.count() == q.count(),
        p.max_owned() == q.max_owned(),
{
    assert forall|a: AccountId| #[trigger] q.owned_by(a) == p.owned_by(a) by {}
    if p.wf() {
        assert forall|a: AccountId, y: CourseId| #[trigger]
            q.owned_by(a).contains(y) implies q.courses_view().contains_key(y)
            && q.courses_view()[y].owner == a by {
            assert(p.owned_by(a).contains(y));
        }
        assert forall|a: AccountId| #[trigger]
            q.owned_by(a).len() <= q.max_owned() && q.owned_by(a).no_duplicates() by {
            assert(p.owned_by(a).len() <= p.max_owned() && p.owned_by(a).no_duplicates());
        }
    }
}

impl Pallet {
    /// The courses by identifier.
    pub closed spec fn courses_view(&self) -> Map<CourseId, Course> {
        self.courses_map@
    }

    /// The courses that `who` owns, in the order of the ownership index
    /// (empty for an account that never owned one).
    pub closed spec fn owned_by(&self, who: AccountId) -> Seq<CourseId> {
        if self.owned@.contains_key(who) {
            self.owned@[who]@
        } else {
            Seq::empty()
        }
    }

    /// The number of courses ever created.
    pub closed spec fn count(&self) -> u64 {
        self.count_for_courses
    }

    /// The most courses that one account may own.
    pub closed spec fn max_owned(&self) -> u32 {
        self.max_courses_owned
    }

    /// The events emitted so far, oldest first.
    pub closed spec fn events_view(&self) -> Seq<Event> {
        self.events@
    }

    /// The stored list of courses agrees with `courses_view`, one entry per
    /// identifier.
    pub closed spec fn store_linked(&self) -> bool {
        &&& forall|i: int|
            0 <= i < self.courses@.len() ==> self.courses_map@.contains_key(
                #[trigger] self.courses@[i].0,
            ) && self.courses_map@[self.courses@[i].0] == self.courses@[i].1
        &&& forall|id: CourseId| #[trigger]
            self.courses_map@.contains_key(id) ==> exists|i: int|
                0 <= i < self.courses@.len() && self.courses@[i].0 == id
        &&& forall|i: int, j: int|
            0 <= i < j < self.courses@.len() ==> #[trigger] self.courses@[i].0
                != #[trigger] self.courses@[j].0
    }

    /// An account's list holds exactly the courses that it owns.
    pub open spec fn index_consistent(&self) -> bool {
        &&& forall|a: AccountId, id: CourseId| #[trigger]
            self.owned_by(a).contains(id) ==> self.courses_view().contains_key(id)
                && self.courses_view()[id].owner == a
        &&& forall|id: CourseId| #[trigger]
            self.courses_view().contains_key(id) ==> self.owned_by(
                self.courses_view()[id].owner,
            ).contains(id)
    }

    /// No account's list is over the maximum or holds a course twice.
    pub open spec fn owned_lists_ok(&self) -> bool {
        forall|a: AccountId| #[trigger]
            self.owned_by(a).len() <= self.max_owned() && self.owned_by(a).no_duplicates()
    }

    /// The courses are finitely many, and as many as the counter says.
    pub open spec fn counted(&self) -> bool {
        &&& self.courses_view().dom().finite()
        &&& self.courses_view().dom().len() == self.count()
    }

    /// The registry is well formed.
    pub open spec fn wf(&self) -> bool {
        &&& self.store_linked()
        &&& self.index_consistent()
        &&& self.owned_lists_ok()
        &&& self.counted()
    }

    /// An empty registry in which an account may own at most
    /// `max_courses_owned` courses.
    pub fn new(max_courses_owned: u32) -> (r: Pallet)
        ensures
            r.wf(),
            r.courses_view() == Map::<CourseId, Course>::empty(),
            forall|a: AccountId| #[trigger] r.owned_by(a) == Seq::<CourseId>::empty(),
            r.count() == 0,
            r.max_owned() == max_courses_owned,
            r.events_view() == Seq::<Event>::empty(),
    {
        Pallet {
            courses: Vec::new(),
            courses_map: Ghost(Map::empty()),
            count_for_courses: 0,
            owned: HashMap::new(),
            max_courses_owned,
            events: Vec::new(),
        }
    }

    /// The number of courses ever created.
    pub fn count_for_courses(&self) -> (r: u64)
        ensures
            r == self.count(),
    {
        self.count_for_courses
    }

    /// The most courses that one account may own.
    pub fn max_courses_owned(&self) -> (r: u32)
        ensures
            r == self.max_owned(),
    {
        self.max_courses_owned
    }

    /// The events emitted so far, oldest first.
    pub fn events(&self) -> (r: &Vec<Event>)
        ensures
            r@ == self.events_view(),
    {
        &self.events
    }

    fn find_course(&self, course_id: &CourseId) -> (r: Option<usize>)
        requires
            self.store_linked(),
        ensures
            match r {
                Some(i) => i < self.courses@.len() && self.courses@[i as int].0 == *course_id
                    && self.courses_view().contains_key(*course_id) && self.courses_view()[*course_id]
                    == self.courses@[i as int].1,
                None => !self.courses_view().contains_key(*course_id),
            },
    {
        let mut i: usize = 0;
        while i < self.courses.len()
            invariant
                self.store_linked(),
                i <= self.courses@.len(),
                forall|j: int| 0 <= j < i ==> self.courses@[j].0 != *course_id,
            decreases self.courses@.len() - i,
        {
            if ids_equal(&self.courses[i].0, course_id) {
                assert(self.courses_map@.contains_key(self.courses@[i as int].0));
                return Some(i);
            }
            i = i + 1;
        }
        None
    }

    /// The course stored under `course_id`, if any.
    pub fn courses(&self, course_id: &CourseId) -> (r: Option<Course>)
        requires
            self.wf(),
        ensures
            r == (if self.courses_view().contains_key(*course_id) {
                Some(self.courses_view()[*course_id])
            } else {
                None
            }),
    {
        match self.find_course(course_id) {
            Some(i) => Some(self.courses[i].1),
            None => None,
        }
    }

    /// The courses that `who` owns, in the order of the ownership index.
    pub fn courses_owned(&self, who: AccountId) -> (r: Vec<CourseId>)
        ensures
            r@ == self.owned_by(who),
    {
        let mut out: Vec<CourseId> = Vec::new();
        match self.owned.get(&who) {
            Some(list) => {
                let mut i: usize = 0;
                while i < list.len()
                    invariant
                        i <= list@.len(),
                        out@ == list@.subrange(0, i as int),
                    decreases list@.len() - i,
                {
                    out.push(list[i]);
                    i = i + 1;
                    assert(out@ == list@.subrange(0, i as int));
                }
                assert(list@.subrange(0, list@.len() as int) == list@);
            },
            None => {},
        }
        out
    }

    fn owned_len(&self, who: AccountId) -> (r: usize)
        ensures
            r == self.owned_by(who).len(),
    {
        match self.owned.get(&who) {
            Some(list) => list.len(),
            None => 0,
        }
    }

    fn push_owned(&mut self, who: AccountId, course_id: CourseId)
        ensures
            forall|a: AccountId| #[trigger]
                final(self).owned_by(a) == if a == who {
                    old(self).owned_by(a).push(course_id)
                } else {
                    old(self).owned_by(a)
                },
            final(self).courses == old(self).courses,
            final(self).courses_map == old(self).courses_map,
            final(self).count_for_courses == old(self).count_for_courses,
            final(self).max_courses_owned == old(self).max_courses_owned,
            final(self).events == old(self).events,
    {
        let mut list: Vec<CourseId> = match self.owned.remove(&who) {
            Some(list) => list,
            None => Vec::new(),
        };
        list.push(course_id);
        self.owned.insert(who, list);
    }

    fn set_course_at(&mut self, i: usize, course: Course)
        requires
            old(self).store_linked(),
            i < old(self).courses@.len(),
        ensures
            final(self).store_linked(),
            final(self).courses@.len() == old(self).courses@.len(),
            final(self).courses@[i as int].0 == old(self).courses@[i as int].0,
            final(self).courses_view() == old(self).courses_view().insert(
                old(self).courses@[i as int].0,
                course,
            ),
            final(self).courses_view().dom() == old(self).courses_view().dom(),
            final(self).owned == old(self).owned,
            final(self).count_for_courses == old(self).count_for_courses,
            final(self).max_courses_owned == old(self).max_courses_owned,
            final(self).events == old(self).events,
    {
        let ghost pre = *self;
        let id = self.courses[i].0;
        self.courses.set(i, (id, course));
        self.courses_map = Ghost(self.courses_map@.insert(id, course));
        proof {
            assert(pre.courses_map@.contains_key(id));
            assert(self.courses_map@.dom() =~= pre.courses_map@.dom());
            assert forall|j: int| 0 <= j < self.courses@.len() && j != i implies #[trigger] self.courses@[j]
                == pre.courses@[j] && pre.courses@[j].0 != id by {
                if j < i {
                    assert(pre.courses@[j].0 != pre.courses@[i as int].0);
                } else {
                    assert(pre.courses@[i as int].0 != pre.courses@[j].0);
                }
            }
            assert forall|k: CourseId| #[trigger]
                self.courses_map@.contains_key(k) implies exists|j: int|
                0 <= j < self.courses@.len() && self.courses@[j].0 == k by {
                if k == id {
                    assert(self.courses@[i as int].0 == k);
                } else {
                    assert(pre.courses_map@.contains_key(k));
                    let j = choose|j: int| 0 <= j < pre.courses@.len() && pre.courses@[j].0 == k;
                    assert(self.courses@[j].0 == k);
                }
            }
            assert forall|a: int, b: int|
                0 <= a < b < self.courses@.len() implies #[trigger] self.courses@[a].0
                != #[trigger] self.courses@[b].0 by {
                assert(pre.courses@[a].0 != pre.courses@[b].0);
            }
        }
    }

    fn position_in_owned(&self, who: AccountId, course_id: &CourseId) -> (r: usize)
        requires
            self.owned_by(who).contains(*course_id),
            self.owned_by(who).no_duplicates(),
        ensures
            r < self.owned_by(who).len(),
            self.owned_by(who)[r as int] == *course_id,
            r == position_of(self.owned_by(who), *course_id),
    {
        let ghost s = self.owned_by(who);
        proof {
            let k = position_of(s, *course_id);
            assert(0 <= k < s.len() && s[k] == *course_id);
        }
        match self.owned.get(&who) {
            Some(list) => {
                let mut i: usize = 0;
                while i < list.len()
                    invariant
                        list@ == s,
                        s == self.owned_by(who),
                        s.contains(*course_id),
                        s.no_duplicates(),
                        i <= list@.len(),
                        forall|j: int| 0 <= j < i ==> s[j] != *course_id,
                    decreases list@.len() - i,
                {
                    if ids_equal(&list[i], course_id) {
                        proof {
                            let k = position_of(s, *course_id);
                            assert(0 <= k < s.len() && s[k] == *course_id);
                            assert(k == i);
                        }
                        return i;
                    }
                    i = i + 1;
                }
                proof {
                    let k = choose|k: int| 0 <= k < s.len() && s[k] == *course_id;
                    assert(s[k] == *course_id);
                }
                0
            },
            None => 0,
        }
    }

    fn swap_remove_owned(&mut self, who: AccountId, k: usize)
        requires
            k < old(self).owned_by(who).len(),
        ensures
            forall|a: AccountId| #[trigger]
                final(self).owned_by(a) == if a == who {
                    swap_removed(old(self).owned_by(a), k as int)
                } else {
                    old(self).owned_by(a)
                },
            final(self).courses == old(self).courses,
            final(self).courses_map == old(self).courses_map,
            final(self).count_for_courses == old(self).count_for_courses,
            final(self).max_courses_owned == old(self).max_courses_owned,
            final(self).events == old(self).events,
    {
        let mut list: Vec<CourseId> = match self.owned.remove(&who) {
            Some(list) => list,
            None => Vec::new(),
        };
        list.swap_remove(k);
        self.owned.insert(who, list);
    }

    /// Moves the course at position `i` of the store to `to`, clearing its
    /// price. Never fails: the caller has checked that `to` has room.
    fn move_course(&mut self, i: usize, to: AccountId)
        requires
            old(self).wf(),
            i < old(self).courses@.len(),
            to == old(self).courses@[i as int].1.owner || old(self).owned_by(to).len()
                < old(self).max_owned(),
        ensures
            final(self).wf(),
            transferred(*old(self), *final(self), old(self).courses@[i as int].0, to),
            final(self).events == old(self).events,
    {
        let ghost pre = *self;
        let id = self.courses[i].0;
        let course = self.courses[i].1;
        let prev = course.owner;
        proof {
            assert(pre.courses_view().contains_key(id) && pre.courses_view()[id] == course);
            assert(pre.owned_by(prev).contains(id));
        }
        let k = self.position_in_owned(prev, &id);
        proof {
            lemma_swap_remove(pre.owned_by(prev), k as int);
        }
        self.swap_remove_owned(prev, k);
        let ghost mid = *self;
        proof {
            assert(mid.owned_by(to) == owned_without(pre, prev, id, to));
            if to != prev {
                assert(!pre.owned_by(to).contains(id));
            }
            lemma_push_fresh(mid.owned_by(to), id);
        }
        self.push_owned(to, id);
        let ghost mid2 = *self;
        self.set_course_at(i, Course { owner: to, price: None, ..course });
        proof {
            let new_course = Course { owner: to, price: None, ..course };
            assert forall|a: AccountId| #[trigger] self.owned_by(a) == (if a == to {
                owned_without(pre, prev, id, a).push(id)
            } else {
                owned_without(pre, prev, id, a)
            }) by {
                assert(self.owned_by(a) == mid2.owned_by(a));
                assert(mid.owned_by(a) == owned_without(pre, prev, id, a));
            }
            assert forall|a: AccountId, y: CourseId| #[trigger]
                self.owned_by(a).contains(y) implies self.courses_view().contains_key(y)
                && self.courses_view()[y].owner == a by {
                if y != id {
                    if a == to {
                        assert(mid.owned_by(to).push(id).contains(y));
                        assert(mid.owned_by(to).contains(y));
                    }
                    assert(mid.owned_by(a).contains(y));
                    assert(pre.owned_by(a).contains(y));
                } else {
                    if a != to {
                        assert(mid.owned_by(a).contains(id));
                        if a == prev {
                            assert(swap_removed(pre.owned_by(prev), k as int).contains(id));
                        } else {
                            assert(pre.owned_by(a).contains(id));
                        }
                    }
                }
            }
            assert forall|y: CourseId| #[trigger]
                self.courses_view().contains_key(y) implies self.owned_by(
                self.courses_view()[y].owner,
            ).contains(y) by {
                if y == id {
                    assert(mid.owned_by(to).push(id).contains(id));
                } else {
                    assert(pre.courses_view().contains_key(y));
                    let b = pre.courses_view()[y].owner;
                    assert(pre.owned_by(b).contains(y));
                    assert(self.courses_view()[y].owner == b);
                    if b == prev {
                        assert(swap_removed(pre.owned_by(prev), k as int).contains(y));
                    }
                    assert(mid.owned_by(b).contains(y));
                    if b == to {
                        assert(mid.owned_by(to).push(id).contains(y));
                    }
                }
            }
            assert forall|a: AccountId| #[trigger]
                self.owned_by(a).len() <= self.max_owned() && self.owned_by(a).no_duplicates() by {
                assert(pre.owned_by(a).len() <= pre.max_owned() && pre.owned_by(a).no_duplicates());
                assert(mid.owned_by(a).no_duplicates());
            }
        }
    }

    /// Whether `acct` owns the course stored under `course_id`.
    pub fn is_course_owner(&self, course_id: &CourseId, acct: AccountId) -> (r: Result<bool, Error>)
        requires
            self.wf(),
        ensures
            r == (if self.courses_view().contains_key(*course_id) {
                Ok::<bool, Error>(self.courses_view()[*course_id].owner == acct)
            } else {
                Err::<bool, Error>(Error::CourseNotExist)
            }),
    {
        match self.find_course(course_id) {
            Some(i) => Ok(self.courses[i].1.owner == acct),
            None => Err(Error::CourseNotExist),
        }
    }

    /// Stores `course` under `course_id`, which the caller computed from it,
    /// appends the identifier to its owner's list, counts the course and
    /// emits `Created`. Fails
    /// when the counter is full, when the identifier is taken, or when the
    /// owner's list is full.
    pub fn mint_course(&mut self, course: Course, course_id: CourseId) -> (r: Result<CourseId, Error>)
        requires
            old(self).wf(),
        ensures
            final(self).wf(),
            minted(*old(self), *final(self), course, course_id, r),
            keeps_courses(*old(self), *final(self)),
    {
        let new_cnt: u64 = match self.count_for_courses.checked_add(1) {
            Some(c) => c,
            None => {
                return Err(Error::CountForCoursesOverflow);
            },
        };
        if self.find_course(&course_id).is_some() {
            return Err(Error::CourseExists);
        }
        let owner = course.owner;
        if self.owned_len(owner) >= self.max_courses_owned as usize {
            return Err(Error::ExceedMaxCourseOwned);
        }
        let ghost pre = *self;
        proof {
            assert(!pre.owned_by(owner).contains(course_id));
            lemma_push_fresh(pre.owned_by(owner), course_id);
        }
        self.push_owned(owner, course_id);
        let ghost mid = *self;
        self.courses.push((course_id, course));
        self.courses_map = Ghost(self.courses_map@.insert(course_id, course));
        self.count_for_courses = new_cnt;
        self.events.push(Event::Created(owner, course_id));
        proof {
            assert(self.courses_map@.dom() =~= pre.courses_map@.dom().insert(course_id));
            let n = pre.courses@.len() as int;
            assert forall|a: AccountId| #[trigger] self.owned_by(a) == (if a == owner {
                pre.owned_by(a).push(course_id)
            } else {
                pre.owned_by(a)
            }) by {
                assert(self.owned@ == mid.owned@);
                assert(mid.owned_by(a) == (if a == owner {
                    pre.owned_by(a).push(course_id)
                } else {
                    pre.owned_by(a)
                }));
            }
            assert(self.courses@[n] == (course_id, course));
            assert forall|i: int| 0 <= i < n implies #[trigger] self.courses@[i] == pre.courses@[i] by {}
            assert forall|i: int| 0 <= i < n implies pre.courses@[i].0 != course_id by {
                assert(pre.courses_map@.contains_key(pre.courses@[i].0));
            }
            assert forall|id: CourseId| #[trigger]
                self.courses_map@.contains_key(id) implies exists|i: int|
                0 <= i < self.courses@.len() && self.courses@[i].0 == id by {
                if id == course_id {
                    assert(self.courses@[n].0 == id);
                } else {
                    assert(pre.courses_map@.contains_key(id));
                    let i = choose|i: int| 0 <= i < pre.courses@.len() && pre.courses@[i].0 == id;
                    assert(self.courses@[i].0 == id);
                }
            }
            assert forall|a: AccountId, id: CourseId| #[trigger]
                self.owned_by(a).contains(id) implies self.courses_view().contains_key(id)
                && self.courses_view()[id].owner == a by {
                if a == owner {
                    if id != course_id {
                        assert(pre.owned_by(a).contains(id));
                    }
                } else {
                    assert(pre.owned_by(a).contains(id));
                }
            }
            assert forall|id: CourseId| #[trigger]
                self.courses_view().contains_key(id) implies self.owned_by(
                self.courses_view()[id].owner,
            ).contains(id) by {
                if id != course_id {
                    assert(pre.courses_view().contains_key(id));
                    let a = pre.courses_view()[id].owner;
                    assert(pre.owned_by(a).contains(id));
                    if a == owner {
                        assert(self.owned_by(a).contains(id));
                    }
                } else {
                    assert(self.owned_by(owner).contains(course_id));
                }
            }
            assert forall|a: AccountId| #[trigger]
                self.owned_by(a).len() <= self.max_owned() && self.owned_by(a).no_duplicates() by {
                assert(pre.owned_by(a).len() <= pre.max_owned() && pre.owned_by(a).no_duplicates());
            }
        }
        Ok(course_id)
    }

    /// Sets the asking price of a course that `sender` owns (`None`: not for
    /// sale) and emits `PriceSet`.
    pub fn set_price(&mut self, sender: AccountId, course_id: CourseId, new_price: Option<Balance>) -> (r:
        Result<(), Error>)
        requires
            old(self).wf(),
        ensures
            final(self).wf(),
            (r == Err::<(), Error>(Error::CourseNotExist)) <==> !old(self).courses_view().contains_key(
                course_id,
            ),
            (r == Err::<(), Error>(Error::NotCourseOwner)) <==> (old(self).courses_view().contains_key(
                course_id,
            ) && old(self).courses_view()[course_id].owner != sender),
            r is Ok <==> (old(self).courses_view().contains_key(course_id)
                && old(self).courses_view()[course_id].owner == sender),
            r is Err ==> *final(self) == *old(self),
            keeps_courses(*old(self), *final(self)),
            r is Ok ==> {
                &&& final(self).courses_view() == old(self).courses_view().insert(
                    course_id,
                    (Course { price: new_price, ..old(self).courses_view()[course_id] }),
                )
                &&& forall|a: AccountId| #[trigger] final(self).owned_by(a) == old(self).owned_by(a)
                &&& final(self).count() == old(self).count()
                &&& final(self).max_owned() == old(self).max_owned()
                &&& final(self).events_view() == old(self).events_view().push(
                    Event::PriceSet(sender, course_id, new_price),
                )
            },
    {
        let i = match self.find_course(&course_id) {
            Some(i) => i,
            None => {
                return Err(Error::CourseNotExist);
            },
        };
        let course = self.courses[i].1;
        if course.owner != sender {
            return Err(Error::NotCourseOwner);
        }
        let ghost pre = *self;
        self.set_course_at(i, Course { price: new_price, ..course });
        let ghost priced = *self;
        self.events.push(Event::PriceSet(sender, course_id, new_price));
        proof {
            lemma_same_store(priced, *self);
            assert forall|a: AccountId| #[trigger]
                self.owned_by(a).len() <= self.max_owned() && self.owned_by(a).no_duplicates() by {
                assert(pre.owned_by(a).len() <= pre.max_owned() && pre.owned_by(a).no_duplicates());
            }
            assert forall|a: AccountId| #[trigger] self.owned_by(a) == pre.owned_by(a) by {}
            assert forall|a: AccountId, y: CourseId| #[trigger]
                self.owned_by(a).contains(y) implies self.courses_view().contains_key(y)
                && self.courses_view()[y].owner == a by {
                assert(pre.owned_by(a).contains(y));
            }
            assert forall|y: CourseId| #[trigger]
                self.courses_view().contains_key(y) implies self.owned_by(
                self.courses_view()[y].owner,
            ).contains(y) by {
                assert(pre.courses_view().contains_key(y));
                assert(self.courses_view()[y].owner == pre.courses_view()[y].owner);
            }
        }
        Ok(())
    }

    /// Moves a course to `to`, clearing its price, with no test of who asks:
    /// the building block of `transfer` and `buy_course`. Fails when the
    /// course is unknown, or when `to` is not its owner and its list is full.
    pub fn transfer_course_to(&mut self, course_id: &CourseId, to: AccountId) -> (r: Result<(), Error>)
        requires
            old(self).wf(),
        ensures
            final(self).wf(),
            (r == Err::<(), Error>(Error::CourseNotExist)) <==> !old(self).courses_view().contains_key(
                *course_id,
            ),
            (r == Err::<(), Error>(Error::ExceedMaxCourseOwned)) <==> (old(self).courses_view().contains_key(
                *course_id,
            ) && old(self).courses_view()[*course_id].owner != to && old(self).owned_by(to).len()
                >= old(self).max_owned()),
            r is Ok <==> (old(self).courses_view().contains_key(*course_id) && (
            old(self).courses_view()[*course_id].owner == to || old(self).owned_by(to).len()
                < old(self).max_owned())),
            r is Err ==> *final(self) == *old(self),
            keeps_courses(*old(self), *final(self)),
            r is Ok ==> transferred(*old(self), *final(self), *course_id, to) && final(self).events_view()
                == old(self).events_view(),
    {
        let i = match self.find_course(course_id) {
            Some(i) => i,
            None => {
                return Err(Error::CourseNotExist);
            },
        };
        let prev = self.courses[i].1.owner;
        if prev != to && self.owned_len(to) >= self.max_courses_owned as usize {
            return Err(Error::ExceedMaxCourseOwned);
        }
        self.move_course(i, to);
        Ok(())
    }

    /// Transfers a course that `sender` owns to another account, clearing its
    /// price, and emits `Transferred`.
    pub fn transfer(&mut self, sender: AccountId, to: AccountId, course_id: CourseId) -> (r: Result<(), Error>)
        requires
            old(self).wf(),
        ensures
            final(self).wf(),
            (r == Err::<(), Error>(Error::CourseNotExist)) <==> !old(self).courses_view().contains_key(
                course_id,
            ),
            (r == Err::<(), Error>(Error::NotCourseOwner)) <==> (old(self).courses_view().contains_key(
                course_id,
            ) && old(self).courses_view()[course_id].owner != sender),
            (r == Err::<(), Error>(Error::TransferToSelf)) <==> (old(self).courses_view().contains_key(
                course_id,
            ) && old(self).courses_view()[course_id].owner == sender && to == sender),
            (r == Err::<(), Error>(Error::ExceedMaxCourseOwned)) <==> (old(self).courses_view().contains_key(
                course_id,
            ) && old(self).courses_view()[course_id].owner == sender && to != sender
                && old(self).owned_by(to).len() >= old(self).max_owned()),
            r is Ok <==> (old(self).courses_view().contains_key(course_id)
                && old(self).courses_view()[course_id].owner == sender && to != sender
                && old(self).owned_by(to).len() < old(self).max_owned()),
            r is Err ==> *final(self) == *old(self),
            keeps_courses(*old(self), *final(self)),
            r is Ok ==> transferred(*old(self), *final(self), course_id, to) && final(self).events_view()
                == old(self).events_view().push(Event::Transferred(sender, to, course_id)),
    {
        let i = match self.find_course(&course_id) {
            Some(i) => i,
            None => {
                return Err(Error::CourseNotExist);
            },
        };
        if self.courses[i].1.owner != sender {
            return Err(Error::NotCourseOwner);
        }
        if sender == to {
            return Err(Error::TransferToSelf);
        }
        if self.owned_len(to) >= self.max_courses_owned as usize {
            return Err(Error::ExceedMaxCourseOwned);
        }
        self.move_course(i, to);
        let ghost moved = *self;
        self.events.push(Event::Transferred(sender, to, course_id));
        proof {
            lemma_same_store(moved, *self);
        }
        Ok(())
    }

    /// Sells a course to `buyer` for `bid_price`: the buyer must not own it,
    /// it must be for sale at no more than the bid, the buyer's free balance
    /// must cover the bid and the buyer's list must have room. The bid is then
    /// paid to the seller (keeping the buyer's account alive), the course
    /// moves to the buyer with no price, and `Bought` is emitted. On any
    /// failure neither the registry nor the currency changes.
    pub fn buy_course<C: Currency>(
        &mut self,
        currency: &mut C,
        buyer: AccountId,
        course_id: CourseId,
        bid_price: Balance,
    ) -> (r: Result<(), Error>)
        requires
            old(self).wf(),
        ensures
            final(self).wf(),
            (r == Err::<(), Error>(Error::CourseNotExist)) <==> !old(self).courses_view().contains_key(
                course_id,
            ),
            (r == Err::<(), Error>(Error::BuyerIsCourseOwner)) <==> (old(self).courses_view().contains_key(
                course_id,
            ) && old(self).courses_view()[course_id].owner == buyer),
            (r == Err::<(), Error>(Error::CourseNotForSale)) <==> (old(self).courses_view().contains_key(
                course_id,
            ) && old(self).courses_view()[course_id].owner != buyer
                && old(self).courses_view()[course_id].price is None),
            (r == Err::<(), Error>(Error::CourseBidPriceTooLow)) <==> (old(self).courses_view().contains_key(
                course_id,
            ) && old(self).courses_view()[course_id].owner != buyer
                && old(self).courses_view()[course_id].price is Some && !bid_covers(old(self).courses_view()[course_id].price, bid_price)),
            (r == Err::<(), Error>(Error::NotEnoughBalance)) <==> (old(self).courses_view().contains_key(
                course_id,
            ) && old(self).courses_view()[course_id].owner != buyer
                && bid_covers(old(self).courses_view()[course_id].price, bid_price)
                && old(currency).balance(buyer) < bid_price),
            (r == Err::<(), Error>(Error::ExceedMaxCourseOwned)) <==> (old(self).courses_view().contains_key(
                course_id,
            ) && old(self).courses_view()[course_id].owner != buyer
                && bid_covers(old(self).courses_view()[course_id].price, bid_price)
                && old(currency).balance(buyer) >= bid_price && old(self).owned_by(buyer).len()
                >= old(self).max_owned()),
            r matches Err(Error::Currency(_)) ==> buy_allowed(
                *old(self),
                old(currency).balance(buyer),
                buyer,
                course_id,
                bid_price,
            ),
            buy_allowed(*old(self), old(currency).balance(buyer), buyer, course_id, bid_price) ==> (r is Ok
                <==> old(currency).transfer_outcome(
                buyer,
                old(self).courses_view()[course_id].owner,
                bid_price,
                ExistenceRequirement::KeepAlive,
            ) is Ok),
            r matches Err(Error::Currency(e)) ==> old(currency).transfer_outcome(
                buyer,
                old(self).courses_view()[course_id].owner,
                bid_price,
                ExistenceRequirement::KeepAlive,
            ) == Err::<(), CurrencyError>(e),
            r is Err ==> *final(self) == *old(self) && *final(currency) == *old(currency),
            keeps_courses(*old(self), *final(self)),
            r is Ok ==> {
                let seller = old(self).courses_view()[course_id].owner;
                &&& transferred(*old(self), *final(self), course_id, buyer)
                &&& final(self).events_view() == old(self).events_view().push(
                    Event::Bought(buyer, seller, course_id, bid_price),
                )
                &&& final(currency).balance(buyer) == old(currency).balance(buyer) - bid_price
                &&& final(currency).balance(seller) == old(currency).balance(seller) + bid_price
                &&& forall|a: AccountId|
                    a != buyer && a != seller ==> #[trigger] final(currency).balance(a) == old(
                        currency,
                    ).balance(a)
            },
    {
        let i = match self.find_course(&course_id) {
            Some(i) => i,
            None => {
                return Err(Error::CourseNotExist);
            },
        };
        let course = self.courses[i].1;
        if course.owner == buyer {
            return Err(Error::BuyerIsCourseOwner);
        }
        match course.price {
            Some(ask_price) => {
                if ask_price > bid_price {
                    return Err(Error::CourseBidPriceTooLow);
                }
            },
            None => {
                return Err(Error::CourseNotForSale);
            },
        }
        if currency.free_balance(buyer) < bid_price {
            return Err(Error::NotEnoughBalance);
        }
        if self.owned_len(buyer) >= self.max_courses_owned as usize {
            return Err(Error::ExceedMaxCourseOwned);
        }
        let seller = course.owner;
        match currency.transfer(buyer, seller, bid_price, ExistenceRequirement::KeepAlive) {
            Ok(()) => {},
            Err(e) => {
                return Err(Error::Currency(e));
            },
        }
        self.move_course(i, buyer);
        let ghost moved = *self;
        self.events.push(Event::Bought(buyer, seller, course_id, bid_price));
        proof {
            lemma_same_store(moved, *self);
        }
        Ok(())
    }

    /// The DNA of a child of the two courses: a fresh mask for the step that
    /// `ctx` describes, mixed over the parents' DNA.
    pub fn breed_dna(&self, parent1: &CourseId, parent2: &CourseId, ctx: &ExecContext) -> (r: Result<
        Dna,
        Error,
    >)
        requires
            self.wf(),
        ensures
            (r == Err::<Dna, Error>(Error::CourseNotExist)) <==> !(self.courses_view().contains_key(
                *parent1,
            ) && self.courses_view().contains_key(*parent2)),
            r matches Ok(d) ==> self.courses_view().contains_key(*parent1)
                && self.courses_view().contains_key(*parent2) && d@ == mixed(
                gen_dna_of(*ctx),
                self.courses_view()[*parent1].dna,
                self.courses_view()[*parent2].dna,
            ),
            r is Ok || r == Err::<Dna, Error>(Error::CourseNotExist),
    {
        let dna1 = match self.courses(parent1) {
            Some(c) => c.dna,
            None => {
                return Err(Error::CourseNotExist);
            },
        };
        let dna2 = match self.courses(parent2) {
            Some(c) => c.dna,
            None => {
                return Err(Error::CourseNotExist);
            },
        };
        let mask = gen_dna(ctx);
        Ok(mix_dna(&mask, &dna1, &dna2))
    }

    /// Breeds two courses that `sender` owns into a new course for `sender`,
    /// with the bred DNA, year `First` and the base credits; the mint emits
    /// `Created` for the child.
    pub fn breed_course(
        &mut self,
        sender: AccountId,
        parent1: CourseId,
        parent2: CourseId,
        ctx: &ExecContext,
    ) -> (r: Result<(), Error>)
        requires
            old(self).wf(),
        ensures
            final(self).wf(),
            keeps_courses(*old(self), *final(self)),
            (r == Err::<(), Error>(Error::CourseNotExist)) <==> (!old(self).courses_view().contains_key(
                parent1,
            ) || (old(self).courses_view()[parent1].owner == sender
                && !old(self).courses_view().contains_key(parent2))),
            (r == Err::<(), Error>(Error::NotCourseOwner)) <==> (old(self).courses_view().contains_key(
                parent1,
            ) && (old(self).courses_view()[parent1].owner != sender || (
            old(self).courses_view().contains_key(parent2) && old(self).courses_view()[parent2].owner
                != sender))),
            !(old(self).courses_view().contains_key(parent1) && old(self).courses_view()[parent1].owner
                == sender && old(self).courses_view().contains_key(parent2)
                && old(self).courses_view()[parent2].owner == sender) ==> *final(self) == *old(self),
            old(self).courses_view().contains_key(parent1) && old(self).courses_view()[parent1].owner
                == sender && old(self).courses_view().contains_key(parent2)
                && old(self).courses_view()[parent2].owner == sender ==> exists|d: Dna|
                #![trigger new_course(sender, Some(d), None, None, *ctx)]
                d@ == mixed(
                    gen_dna_of(*ctx),
                    old(self).courses_view()[parent1].dna,
                    old(self).courses_view()[parent2].dna,
                ) && minted(
                    *old(self),
                    *final(self),
                    new_course(sender, Some(d), None, None, *ctx),
                    course_id_of(new_course(sender, Some(d), None, None, *ctx)),
                    with_id(r, course_id_of(new_course(sender, Some(d), None, None, *ctx))),
                ),
    {
        match self.is_course_owner(&parent1, sender) {
            Ok(true) => {},
            Ok(false) => {
                return Err(Error::NotCourseOwner);
            },
            Err(e) => {
                return Err(e);
            },
        }
        match self.is_course_owner(&parent2, sender) {
            Ok(true) => {},
            Ok(false) => {
                return Err(Error::NotCourseOwner);
            },
            Err(e) => {
                return Err(e);
            },
        }
        let new_dna = match self.breed_dna(&parent1, &parent2, ctx) {
            Ok(d) => d,
            Err(e) => {
                return Err(e);
            },
        };
        match self.mint(sender, Some(new_dna), None, None, ctx) {
            Ok(_) => Ok(()),
            Err(e) => Err(e),
        }
    }

    /// Mints a course for `sender` with a fresh DNA, year `First` and the base
    /// credits; the mint emits `Created`.
    pub fn create_course(&mut self, sender: AccountId, ctx: &ExecContext) -> (r: Result<(), Error>)
        requires
            old(self).wf(),
        ensures
            final(self).wf(),
            minted(
                *old(self),
                *final(self),
                new_course(sender, None, None, None, *ctx),
                course_id_of(new_course(sender, None, None, None, *ctx)),
                with_id(r, course_id_of(new_course(sender, None, None, None, *ctx))),
            ),
            keeps_courses(*old(self), *final(self)),
    {
        match self.mint(sender, None, None, None, ctx) {
            Ok(_) => Ok(()),
            Err(e) => Err(e),
        }
    }

    /// Builds a course for `owner` (see `new_course`), derives its identifier
    /// from its content and mints it, emitting `Created` on success.
    pub fn mint(
        &mut self,
        owner: AccountId,
        dna: Option<Dna>,
        course_year: Option<CourseYear>,
        credits: Option<u8>,
        ctx: &ExecContext,
    ) -> (r: Result<CourseId, Error>)
        requires
            old(self).wf(),
        ensures
            final(self).wf(),
            minted(
                *old(self),
                *final(self),
                new_course(owner, dna, course_year, credits, *ctx),
                course_id_of(new_course(owner, dna, course_year, credits, *ctx)),
                r,
            ),
            keeps_courses(*old(self), *final(self)),
    {
        let course_year = match course_year {
            Some(y) => y,
            None => CourseYear::First,
        };
        let credits = match credits {
            Some(c) => c,
            None => BASE_CREDITS,
        };
        let dna = match dna {
            Some(d) => d,
            None => gen_dna(ctx),
        };
        let course = Course { dna, price: None, course_year, credits, owner };
        let course_id = hash_of_course(&course);
        self.mint_course(course, course_id)
    }
}

} // verus!

verus! {

/// Identifiers are unique: a successful mint takes an identifier that was free
/// before and is taken after it, so a later successful mint, made on a
/// registry that still holds the first course (no operation removes one),
/// returns a different identifier.
pub proof fn lemma_minted_ids_unique(
    p0: Pallet,
    p1: Pallet,
    course1: Course,
    id1: CourseId,
    r1: Result<CourseId, Error>,
    q0: Pallet,
    q1: Pallet,
    course2: Course,
    id2: CourseId,
    r2: Result<CourseId, Error>,
)
    requires
        minted(p0, p1, course1, id1, r1),
        r1 is Ok,
        minted(q0, q1, course2, id2, r2),
        r2 is Ok,
        p1.courses_view().dom().subset_of(q0.courses_view().dom()),
    ensures
        !p0.courses_view().contains_key(id1),
        p1.courses_view().contains_key(id1),
        id1 != id2,
{
    assert(p1.courses_view().contains_key(id1));
    assert(q0.courses_view().contains_key(id1));
}

/// Along a run of registries in which each step keeps the courses of the one
/// before (as every operation does), a later registry holds every course of
/// an earlier one.
pub proof fn lemma_courses_kept_along(states: Seq<Pallet>, a: int, b: int)
    requires
        forall|k: int| 0 <= k < states.len() - 1 ==> #[trigger] keeps_courses(states[k], states[k + 1]),
        0 <= a <= b < states.len(),
    ensures
        keeps_courses(states[a], states[b]),
    decreases b - a,
{
    if a < b {
        lemma_courses_kept_along(states, a, b - 1);
        let k = b - 1;
        assert(keeps_courses(states[k], states[k + 1]));
        assert(k + 1 == b);
    }
}

/// No two successful mints return the same identifier: in a run of
/// operations, each of which keeps the courses of the registry before it, a
/// successful mint at step `i` and another at a later step `j` return
/// different identifiers.
pub proof fn lemma_minted_ids_unique_along(
    states: Seq<Pallet>,
    i: int,
    course1: Course,
    id1: CourseId,
    r1: Result<CourseId, Error>,
    j: int,
    course2: Course,
    id2: CourseId,
    r2: Result<CourseId, Error>,
)
    requires
        forall|k: int| 0 <= k < states.len() - 1 ==> #[trigger] keeps_courses(states[k], states[k + 1]),
        0 <= i < j,
        j + 1 < states.len(),
        minted(states[i], states[i + 1], course1, id1, r1),
        r1 is Ok,
        minted(states[j], states[j + 1], course2, id2, r2),
        r2 is Ok,
    ensures
        id1 != id2,
{
    lemma_courses_kept_along(states, i + 1, j);
    lemma_minted_ids_unique(
        states[i],
        states[i + 1],
        course1,
        id1,
        r1,
        states[j],
        states[j + 1],
        course2,
        id2,
        r2,
    );
}

/// The ownership index agrees with the courses: in a well-formed registry the
/// identifiers in the list of `a` are exactly those of the courses owned by
/// `a`.
pub proof fn lemma_owned_index_is_ownership(p: Pallet, a: AccountId)
    requires
        p.wf(),
    ensures
        p.owned_by(a).to_set() == p.courses_view().dom().filter(
            |id: CourseId| p.courses_view()[id].owner == a,
        ),
{
    let lhs = p.owned_by(a).to_set();
    let rhs = p.courses_view().dom().filter(|id: CourseId| p.courses_view()[id].owner == a);
    assert forall|id: CourseId| lhs.contains(id) <==> rhs.contains(id) by {
        if p.courses_view().contains_key(id) && p.courses_view()[id].owner == a {
            assert(p.owned_by(p.courses_view()[id].owner).contains(id));
        }
        if p.owned_by(a).contains(id) {
            assert(p.courses_view().contains_key(id));
        }
    }
    assert(lhs =~= rhs);
}

/// A transfer or a sale leaves the course with its new owner and with no
/// asking price, whatever the price was before.
pub proof fn lemma_transfer_clears_price(old: Pallet, new: Pallet, course_id: CourseId, to: AccountId)
    requires
        transferred(old, new, course_id, to),
    ensures
        new.courses_view().contains_key(course_id),
        new.courses_view()[course_id].owner == to,
        new.courses_view()[course_id].price is None,
{
}

} // verus!
