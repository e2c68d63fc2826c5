//! A store for tests that need to hold, order or fail requests.

use std::collections::VecDeque;
use vstd::prelude::*;
use vstd::string::StringExecFns;

verus! {

/// Objects by name. A store for GETs and a store for PUTs can work on the
/// same ones.
#[derive(Debug)]
pub struct ObjectMap {
    /// Each object's name and content; no name occurs twice.
    pub entries: Vec<(String, Vec<u8>)>,
}

/// Where the object called `name` is; the number of entries if there is none.
pub open spec fn entry_from(entries: Seq<(String, Vec<u8>)>, name: Seq<char>, from: int) -> int
    decreases entries.len() - from,
{
    if from >= entries.len() {
        entries.len() as int
    } else if entries[from].0@ == name {
        from
    } else {
        entry_from(entries, name, from + 1)
    }
}

impl View for ObjectMap {
    type V = Map<Seq<char>, Seq<u8>>;

    open spec fn view(&self) -> Map<Seq<char>, Seq<u8>> {
        Map::new(
            |name: Seq<char>| entry_from(self.entries@, name, 0) < self.entries@.len(),
            |name: Seq<char>| self.entries@[entry_from(self.entries@, name, 0)].1@,
        )
    }
}

/// Where a search ends: at the first object of that name, or behind the last.
proof fn lemma_entry(entries: Seq<(String, Vec<u8>)>, name: Seq<char>, from: int)
    requires
        0 <= from <= entries.len(),
    ensures
        from <= entry_from(entries, name, from) <= entries.len(),
        entry_from(entries, name, from) < entries.len() ==> entries[entry_from(
            entries,
            name,
            from,
        )].0@ == name,
        forall|i: int|
            from <= i < entry_from(entries, name, from) ==> (#[trigger] entries[i]).0@ != name,
    decreases entries.len() - from,
{
    if from < entries.len() && entries[from].0@ != name {
        lemma_entry(entries, name, from + 1);
    }
}

/// A search that stops at `at` has passed no object of that name before.
proof fn lemma_entry_is(entries: Seq<(String, Vec<u8>)>, name: Seq<char>, at: int)
    requires
        0 <= at <= entries.len(),
        at < entries.len() ==> entries[at].0@ == name,
        forall|i: int| 0 <= i < at ==> (#[trigger] entries[i]).0@ != name,
    ensures
        entry_from(entries, name, 0) == at,
{
    lemma_entry(entries, name, 0);
}

impl ObjectMap {
    /// No objects.
    pub fn new() -> (r: ObjectMap)
        ensures
            r@ == Map::<Seq<char>, Seq<u8>>::empty(),
    {
        let r = ObjectMap { entries: Vec::new() };
        assert(r@ =~= Map::<Seq<char>, Seq<u8>>::empty());
        r
    }

    /// Where the object called `name` is, or the number of objects.
    fn position(&self, name: &String) -> (at: usize)
        ensures
            at == entry_from(self.entries@, name@, 0),
            at <= self.entries@.len(),
    {
        let mut at: usize = 0;
        while at < self.entries.len()
            invariant
                at <= self.entries@.len(),
                entry_from(self.entries@, name@, 0) == entry_from(
                    self.entries@,
                    name@,
                    at as int,
                ),
            decreases self.entries@.len() - at,
        {
            if self.entries[at].0 == *name {
                return at;
            }
            at = at + 1;
        }
        at
    }

    /// Whether there is an object called `name`.
    pub fn contains(&self, name: &String) -> (r: bool)
        ensures
            r == self@.contains_key(name@),
    {
        self.position(name) < self.entries.len()
    }

    /// The object called `name`.
    pub fn get(&self, name: &String) -> (r: Option<Vec<u8>>)
        ensures
            match r {
                Some(data) => self@.contains_key(name@) && data@ == self@[name@],
                None => !self@.contains_key(name@),
            },
    {
        let at = self.position(name);
        if at < self.entries.len() {
            Some(crate::crypt::copy_bytes(self.entries[at].1.as_slice()))
        } else {
            None
        }
    }

    /// Store `data` under `name`, in place of what was there.
    pub fn insert(&mut self, name: String, data: Vec<u8>)
        ensures
            final(self)@ == old(self)@.insert(name@, data@),
    {
        let at = self.position(&name);
        let ghost before = self.entries@;
        let ghost new_name = name@;
        let ghost new_data = data@;
        if at < self.entries.len() {
            self.entries.set(at, (name, data));
        } else {
            self.entries.push((name, data));
        }
        assert forall|n: Seq<char>| #[trigger] entry_from(self.entries@, n, 0) == (if n
            == new_name {
            at as int
        } else if entry_from(before, n, 0) < before.len() {
            entry_from(before, n, 0)
        } else {
            self.entries@.len() as int
        }) by {
            lemma_entry(before, n, 0);
            lemma_entry(before, new_name, 0);
            lemma_entry_is(
                self.entries@,
                n,
                if n == new_name {
                    at as int
                } else if entry_from(before, n, 0) < before.len() {
                    entry_from(before, n, 0)
                } else {
                    self.entries@.len() as int
                },
            );
        }
        assert forall|n: Seq<char>| #[trigger]
            self@.contains_key(n) == old(self)@.insert(new_name, new_data).contains_key(n) by {
            lemma_entry(before, n, 0);
        }
        assert forall|n: Seq<char>| #[trigger] self@.contains_key(n) implies self@[n] == old(
            self,
        )@.insert(new_name, new_data)[n] by {
            lemma_entry(before, n, 0);
            lemma_entry(before, new_name, 0);
        }
        assert(self@ =~= old(self)@.insert(new_name, new_data));
    }
}

/// What a store is doing.
#[verifier::ext_equal]
pub struct StoreModel {
    /// PUTs wait.
    pub hold_puts: bool,
    /// GETs wait.
    pub hold_gets: bool,
    /// Names whose next PUT fails.
    pub fail_puts: Seq<Seq<char>>,
    /// Names whose next GET fails.
    pub fail_gets: Seq<Seq<char>>,
    /// Names in the order their PUTs were started.
    pub put_order: Seq<Seq<char>>,
    /// When they were.
    pub put_times: Seq<u64>,
    /// PUTs that wait.
    pub pending_puts: Seq<(Seq<char>, Seq<u8>)>,
    /// GETs that wait.
    pub pending_gets: Seq<Seq<char>>,
    /// PUTs that finished, and whether they succeeded.
    pub finished_puts: Seq<(Seq<char>, bool)>,
    /// GETs that finished, and what they gave.
    pub finished_gets: Seq<(Seq<char>, Option<Seq<u8>>)>,
}

/// A sequence without the first `name` in it.
pub open spec fn without_first(queue: Seq<Seq<char>>, name: Seq<char>) -> Seq<Seq<char>> {
    if queue.contains(name) {
        queue.remove(queue.index_of_first(name)->0)
    } else {
        queue
    }
}

impl StoreModel {
    /// A store that does everything at once.
    pub open spec fn idle() -> StoreModel {
        StoreModel {
            hold_puts: false,
            hold_gets: false,
            fail_puts: Seq::empty(),
            fail_gets: Seq::empty(),
            put_order: Seq::empty(),
            put_times: Seq::empty(),
            pending_puts: Seq::empty(),
            pending_gets: Seq::empty(),
            finished_puts: Seq::empty(),
            finished_gets: Seq::empty(),
        }
    }

    /// A PUT finished: it failed if it was to fail.
    pub open spec fn after_put(self, name: Seq<char>) -> StoreModel {
        StoreModel {
            fail_puts: without_first(self.fail_puts, name),
            finished_puts: self.finished_puts.push((name, !self.fail_puts.contains(name))),
            ..self
        }
    }

    /// What it left in the store.
    pub open spec fn objects_after_put(
        self,
        objects: Map<Seq<char>, Seq<u8>>,
        name: Seq<char>,
        data: Seq<u8>,
    ) -> Map<Seq<char>, Seq<u8>> {
        if self.fail_puts.contains(name) {
            objects
        } else {
            objects.insert(name, data)
        }
    }

    /// A GET finished: it failed if it was to fail or there is no such
    /// object.
    pub open spec fn after_get(
        self,
        objects: Map<Seq<char>, Seq<u8>>,
        name: Seq<char>,
    ) -> StoreModel {
        let found = if !self.fail_gets.contains(name) && objects.contains_key(name) {
            Some(objects[name])
        } else {
            None
        };
        StoreModel {
            fail_gets: without_first(self.fail_gets, name),
            finished_gets: self.finished_gets.push((name, found)),
            ..self
        }
    }

    /// A PUT was started.
    pub open spec fn after_start_put(
        self,
        name: Seq<char>,
        data: Seq<u8>,
        now: u64,
    ) -> StoreModel {
        let noted = StoreModel {
            put_order: self.put_order.push(name),
            put_times: self.put_times.push(now),
            ..self
        };
        if self.hold_puts {
            StoreModel { pending_puts: self.pending_puts.push((name, data)), ..noted }
        } else {
            noted.after_put(name)
        }
    }

    /// The waiting PUTs finished in the order they were started.
    pub open spec fn after_release_puts(self) -> StoreModel
        decreases self.pending_puts.len(),
    {
        if self.pending_puts.len() == 0 {
            self
        } else {
            let left = StoreModel { pending_puts: self.pending_puts.drop_first(), ..self };
            left.after_put(self.pending_puts[0].0).after_release_puts()
        }
    }

    /// What they left in the store.
    pub open spec fn objects_after_release_puts(
        self,
        objects: Map<Seq<char>, Seq<u8>>,
    ) -> Map<Seq<char>, Seq<u8>>
        decreases self.pending_puts.len(),
    {
        if self.pending_puts.len() == 0 {
            objects
        } else {
            let left = StoreModel { pending_puts: self.pending_puts.drop_first(), ..self };
            left.after_put(self.pending_puts[0].0).objects_after_release_puts(
                left.objects_after_put(objects, self.pending_puts[0].0, self.pending_puts[0].1),
            )
        }
    }

    /// The waiting GETs finished in the order they were started.
    pub open spec fn after_release_gets(self, objects: Map<Seq<char>, Seq<u8>>) -> StoreModel
        decreases self.pending_gets.len(),
    {
        if self.pending_gets.len() == 0 {
            self
        } else {
            let left = StoreModel { pending_gets: self.pending_gets.drop_first(), ..self };
            left.after_get(objects, self.pending_gets[0]).after_release_gets(objects)
        }
    }
}

/// The names as mathematical values.
pub open spec fn names(queue: Seq<String>) -> Seq<Seq<char>> {
    queue.map_values(|s: String| s@)
}

/// A store whose PUTs and GETs can be held, ordered and failed.
#[derive(Debug)]
pub struct TestObjectStore {
    /// PUTs wait until `release_puts`, so a test can observe what happens (or
    /// must not happen) while an upload is in flight.
    pub hold_puts: bool,
    /// GETs wait until `release_gets`.
    pub hold_gets: bool,
    /// Names whose next PUT fails, consumed one per failure.
    pub fail_puts: VecDeque<String>,
    /// Names whose next GET fails, consumed one per failure.
    pub fail_gets: VecDeque<String>,
    /// Names in the order `start_put_object` was called.
    pub put_order: Vec<String>,
    /// When it was called.
    pub put_started_at: Vec<u64>,
    /// PUTs that wait.
    pub pending_puts: VecDeque<(String, Vec<u8>)>,
    /// GETs that wait.
    pub pending_gets: VecDeque<String>,
    /// PUTs that finished, and whether they succeeded.
    pub finished_puts: Vec<(String, bool)>,
    /// GETs that finished, and what they gave.
    pub finished_gets: Vec<(String, Option<Vec<u8>>)>,
}

impl View for TestObjectStore {
    type V = StoreModel;

    open spec fn view(&self) -> StoreModel {
        StoreModel {
            hold_puts: self.hold_puts,
            hold_gets: self.hold_gets,
            fail_puts: names(self.fail_puts@),
            fail_gets: names(self.fail_gets@),
            put_order: names(self.put_order@),
            put_times: self.put_started_at@,
            pending_puts: self.pending_puts@.map_values(|p: (String, Vec<u8>)| (p.0@, p.1@)),
            pending_gets: names(self.pending_gets@),
            finished_puts: self.finished_puts@.map_values(|p: (String, bool)| (p.0@, p.1)),
            finished_gets: self.finished_gets@.map_values(
                |p: (String, Option<Vec<u8>>)|
                    (
                        p.0@,
                        match p.1 {
                            Some(data) => Some(data@),
                            None => None,
                        },
                    ),
            ),
        }
    }
}

/// Another string with the same characters.
fn copy_name(name: &String) -> (r: String)
    ensures
        r@ == name@,
{
    String::from_str(name.as_str())
}

/// Remove the first occurrence of `name` from `queue`, reporting whether there
/// was one.
fn take_failure(queue: &mut VecDeque<String>, name: &String) -> (r: bool)
    ensures
        r == names(old(queue)@).contains(name@),
        names(final(queue)@) == without_first(names(old(queue)@), name@),
{
    let ghost before = names(queue@);
    let n: usize = queue.len();
    let mut at: usize = 0;
    while at < n
        invariant
            at <= n,
            n == queue@.len(),
            before == names(queue@),
            queue@ == old(queue)@,
            forall|i: int| 0 <= i < at ==> before[i] != name@,
        decreases n - at,
    {
        if queue[at] == *name {
            proof {
                assert(before[at as int] == name@);
                before.index_of_first_ensures(name@);
            }
            let _ = queue.remove(at);
            assert(names(queue@) =~= before.remove(at as int));
            return true;
        }
        at = at + 1;
    }
    assert(!before.contains(name@));
    false
}

impl TestObjectStore {
    /// A store that does everything at once.
    pub fn new() -> (r: TestObjectStore)
        ensures
            r@ == StoreModel::idle(),
    {
        let r = TestObjectStore {
            hold_puts: false,
            hold_gets: false,
            fail_puts: VecDeque::new(),
            fail_gets: VecDeque::new(),
            put_order: Vec::new(),
            put_started_at: Vec::new(),
            pending_puts: VecDeque::new(),
            pending_gets: VecDeque::new(),
            finished_puts: Vec::new(),
            finished_gets: Vec::new(),
        };
        assert(r@ =~= StoreModel::idle());
        r
    }

    /// Finish a PUT.
    fn complete_put(&mut self, objects: &mut ObjectMap, name: String, data: Vec<u8>)
        ensures
            final(self)@ == old(self)@.after_put(name@),
            final(objects)@ == old(self)@.objects_after_put(old(objects)@, name@, data@),
    {
        let ghost wanted = name@;
        let failed = take_failure(&mut self.fail_puts, &name);
        if !failed {
            objects.insert(copy_name(&name), data);
        }
        self.finished_puts.push((name, !failed));
        assert(self@ =~= old(self)@.after_put(wanted));
    }

    /// Finish a GET.
    fn complete_get(&mut self, objects: &ObjectMap, name: String)
        ensures
            final(self)@ == old(self)@.after_get(objects@, name@),
    {
        let ghost wanted = name@;
        let failed = take_failure(&mut self.fail_gets, &name);
        let found = if failed {
            None
        } else {
            objects.get(&name)
        };
        self.finished_gets.push((name, found));
        assert(self@ =~= old(self)@.after_get(objects@, wanted));
    }

    /// Complete every held PUT, in the order it was started.
    pub fn release_puts(&mut self, objects: &mut ObjectMap)
        ensures
            final(self)@ == old(self)@.after_release_puts(),
            final(objects)@ == old(self)@.objects_after_release_puts(old(objects)@),
    {
        let mut left: usize = self.pending_puts.len();
        while left > 0
            invariant
                left == self.pending_puts@.len(),
                self@.after_release_puts() == old(self)@.after_release_puts(),
                self@.objects_after_release_puts(objects@)
                    == old(self)@.objects_after_release_puts(old(objects)@),
            decreases left,
        {
            let ghost before = self@;
            if let Some((name, data)) = self.pending_puts.pop_front() {
                assert(self@ =~= StoreModel {
                    pending_puts: before.pending_puts.drop_first(),
                    ..before
                });
                self.complete_put(objects, name, data);
            }
            left = left - 1;
        }
    }

    /// Complete every held GET, in the order it was started.
    pub fn release_gets(&mut self, objects: &ObjectMap)
        ensures
            final(self)@ == old(self)@.after_release_gets(objects@),
    {
        let mut left: usize = self.pending_gets.len();
        while left > 0
            invariant
                left == self.pending_gets@.len(),
                self@.after_release_gets(objects@) == old(self)@.after_release_gets(objects@),
            decreases left,
        {
            let ghost before = self@;
            if let Some(name) = self.pending_gets.pop_front() {
                assert(self@ =~= StoreModel {
                    pending_gets: before.pending_gets.drop_first(),
                    ..before
                });
                self.complete_get(objects, name);
                assert(self@.pending_gets.len() == self.pending_gets@.len());
                assert(before.pending_gets.len() == left);
            }
            left = left - 1;
        }
    }

    /// Start storing `data` under `name`.
    pub fn start_put_object(
        &mut self,
        objects: &mut ObjectMap,
        name: &String,
        data: Vec<u8>,
        now: u64,
    )
        ensures
            final(self)@ == old(self)@.after_start_put(name@, data@, now),
            final(objects)@ == (if old(self).hold_puts {
                old(objects)@
            } else {
                old(self)@.objects_after_put(old(objects)@, name@, data@)
            }),
    {
        let ghost content = data@;
        self.put_order.push(copy_name(name));
        self.put_started_at.push(now);
        let ghost noted = StoreModel {
            put_order: old(self)@.put_order.push(name@),
            put_times: old(self)@.put_times.push(now),
            ..old(self)@
        };
        assert(self@ =~= noted);
        if self.hold_puts {
            self.pending_puts.push_back((copy_name(name), data));
            assert(self@ =~= StoreModel {
                pending_puts: noted.pending_puts.push((name@, content)),
                ..noted
            });
        } else {
            self.complete_put(objects, copy_name(name), data);
        }
    }

    /// Start fetching the object called `name`.
    pub fn start_get_object(&mut self, objects: &ObjectMap, name: &String)
        ensures
            final(self)@ == (if old(self).hold_gets {
                StoreModel { pending_gets: old(self)@.pending_gets.push(name@), ..old(self)@ }
            } else {
                old(self)@.after_get(objects@, name@)
            }),
    {
        if self.hold_gets {
            self.pending_gets.push_back(copy_name(name));
            assert(self@ =~= StoreModel {
                pending_gets: old(self)@.pending_gets.push(name@),
                ..old(self)@
            });
        } else {
            self.complete_get(objects, copy_name(name));
        }
    }

    /// PUTs that finished since the last call.
    pub fn poll_puts(&mut self) -> (r: Vec<(String, bool)>)
        ensures
            r@ == old(self).finished_puts@,
            final(self)@ == (StoreModel { finished_puts: Seq::empty(), ..old(self)@ }),
    {
        let mut taken: Vec<(String, bool)> = Vec::new();
        std::mem::swap(&mut taken, &mut self.finished_puts);
        assert(self@ =~= StoreModel { finished_puts: Seq::empty(), ..old(self)@ });
        taken
    }

    /// GETs that finished since the last call.
    pub fn poll_gets(&mut self) -> (r: Vec<(String, Option<Vec<u8>>)>)
        ensures
            r@ == old(self).finished_gets@,
            final(self)@ == (StoreModel { finished_gets: Seq::empty(), ..old(self)@ }),
    {
        let mut taken: Vec<(String, Option<Vec<u8>>)> = Vec::new();
        std::mem::swap(&mut taken, &mut self.finished_gets);
        assert(self@ =~= StoreModel { finished_gets: Seq::empty(), ..old(self)@ });
        taken
    }
}

/// What a PUT stored, a GET gives back, unless one of them is made to fail.
pub proof fn law_get_gives_back_what_put_stored(
    puts: StoreModel,
    gets: StoreModel,
    objects: Map<Seq<char>, Seq<u8>>,
    name: Seq<char>,
    data: Seq<u8>,
)
    requires
        !puts.fail_puts.contains(name),
        !gets.fail_gets.contains(name),
    ensures
        gets.after_get(puts.objects_after_put(objects, name, data), name).finished_gets.last()
            == (name, Some(data)),
{
}

/// A PUT that waits changes nothing in the store and is not reported yet. One
/// that does not wait is reported at once: it stored the data unless it was to
/// fail, and then it left every object as it was.
pub proof fn law_what_a_put_leaves(
    m: StoreModel,
    objects: Map<Seq<char>, Seq<u8>>,
    name: Seq<char>,
    data: Seq<u8>,
    now: u64,
)
    ensures
        ({
            let after = m.after_start_put(name, data, now);
            let left = m.objects_after_put(objects, name, data);
            let fails = m.fail_puts.contains(name);
            &&& after.put_order == m.put_order.push(name) && after.put_times == m.put_times.push(
                now,
            )
            &&& m.hold_puts ==> after.pending_puts == m.pending_puts.push((name, data))
                && after.finished_puts == m.finished_puts && after.fail_puts == m.fail_puts
            &&& !m.hold_puts ==> after.pending_puts == m.pending_puts && after.finished_puts
                == m.finished_puts.push((name, !fails))
            &&& !m.hold_puts && fails ==> after.fail_puts.len() == m.fail_puts.len() - 1
            &&& !m.hold_puts && !fails ==> after.fail_puts == m.fail_puts
            &&& fails ==> left == objects
            &&& !fails ==> left.contains_key(name) && left[name] == data
            &&& forall|other: Seq<char>|
                other != name ==> #[trigger] left.contains_key(other) == objects.contains_key(other)
                    && (objects.contains_key(other) ==> left[other] == objects[other])
            &&& after.finished_gets == m.finished_gets && after.pending_gets == m.pending_gets
        }),
{
    if m.fail_puts.contains(name) {
        lemma_first_index(m.fail_puts, name);
    }
}

/// A GET gives what is stored under its name, or nothing if it is to fail or
/// there is nothing.
pub proof fn law_what_a_get_gives(
    m: StoreModel,
    objects: Map<Seq<char>, Seq<u8>>,
    name: Seq<char>,
)
    ensures
        ({
            let after = m.after_get(objects, name);
            let fails = m.fail_gets.contains(name);
            &&& after.finished_gets.len() == m.finished_gets.len() + 1
            &&& after.finished_gets.last().0 == name
            &&& fails || !objects.contains_key(name) ==> after.finished_gets.last().1 is None
            &&& !fails && objects.contains_key(name) ==> after.finished_gets.last().1 == Some(
                objects[name],
            )
            &&& after.fail_gets.len() == m.fail_gets.len() - if fails {
                1int
            } else {
                0
            }
            &&& after.finished_puts == m.finished_puts
        }),
{
    if m.fail_gets.contains(name) {
        lemma_first_index(m.fail_gets, name);
    }
}

/// PUTs that wait are finished in the order they were started, all of them,
/// behind those that were finished before.
pub proof fn law_waiting_puts_are_released_in_order(m: StoreModel)
    ensures
        ({
            let after = m.after_release_puts();
            let before = m.finished_puts.len();
            &&& after.pending_puts.len() == 0
            &&& after.finished_puts.len() == before + m.pending_puts.len()
            &&& after.finished_puts.take(before as int) == m.finished_puts
            &&& forall|i: int|
                before <= i < after.finished_puts.len() ==> (#[trigger] after.finished_puts[i]).0
                    == m.pending_puts[i - before].0
        }),
    decreases m.pending_puts.len(),
{
    let after = m.after_release_puts();
    let before = m.finished_puts.len();
    if m.pending_puts.len() == 0 {
        assert(after.finished_puts.take(before as int) =~= m.finished_puts);
    } else {
        let left = StoreModel { pending_puts: m.pending_puts.drop_first(), ..m };
        let next = left.after_put(m.pending_puts[0].0);
        law_waiting_puts_are_released_in_order(next);
        let first = after.finished_puts.take(before as int + 1);
        assert(first == next.finished_puts);
        assert(after.finished_puts.take(before as int) =~= first.take(before as int));
        assert(first.take(before as int) =~= m.finished_puts);
        assert(after.finished_puts[before as int] == first[before as int]);
    }
}

/// The first of several equal names has a place.
proof fn lemma_first_index(queue: Seq<Seq<char>>, name: Seq<char>)
    requires
        queue.contains(name),
    ensures
        without_first(queue, name).len() == queue.len() - 1,
{
    let at = queue.index_of_first(name);
    queue.index_of_first_ensures(name);
    assert(at is Some);
}

} // verus!
