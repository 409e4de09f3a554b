//! The service registry: a tree of routes whose keys are path segments and
//! whose leaves are service handlers, and the introduction protocol that reads
//! a service path from a new channel and resolves it.
use vstd::prelude::*;
use vstd::utf8::encode_utf8;

use crate::error::Failure;
use crate::formats::{bincode_frames_str, bincode_str_at, Bincode};

verus! {

/// What a route holds at a key: a sub-route or a service handler.
pub enum Entry<H> {
    Route(Route<H>),
    Service(H),
}

/// Used for discovering services: it stores services and sub-routes under keys
/// (the UTF-8 bytes of a path segment). Entries sit in a vector, a later entry
/// hiding an earlier one with the same key (insertion never makes one); an
/// owner that shares the route between tasks holds it behind a lock.
pub struct Route<H> {
    entries: Vec<(Vec<u8>, Entry<H>)>,
}

/// Has an endpoint at which a type should be registered.
pub trait RegisterEndpoint {
    /// inner endpoint
    const ENDPOINT: &'static str;
}

/// How a specific type is registered on a route, and the metadata needed for
/// it.
pub trait Register<H>: RegisterEndpoint {
    /// metadata of type
    type Meta;

    /// register implementation of type
    fn register(top_route: &mut Route<H>, meta: Self::Meta) -> Result<(), Failure>;
}

/// Sent back to the client after it named a service.
#[derive(Debug, Clone, Copy, PartialEq, Eq, Structural)]
pub enum Status {
    /// indicates a service has been found
    Found,
    /// indicates a service has not been found
    NotFound,
}

/// The byte that stands for each status on the wire.
pub open spec fn status_byte(s: Status) -> u8 {
    match s {
        Status::Found => 1,
        Status::NotFound => 2,
    }
}

/// The mapping that a list of entries stands for: a later entry hides an
/// earlier one with the same key.
pub open spec fn entries_map<H>(s: Seq<(Vec<u8>, Entry<H>)>) -> Map<Seq<u8>, Entry<H>>
    decreases s.len(),
{
    if s.len() == 0 {
        Map::empty()
    } else {
        entries_map(s.drop_last()).insert(s.last().0@, s.last().1)
    }
}

/// The handler that the segments `segs` lead to from a route with mapping `m`:
/// each segment names a sub-route to enter, until one names a handler.
pub open spec fn resolve_in<H>(m: Map<Seq<u8>, Entry<H>>, segs: Seq<Seq<u8>>) -> Option<H>
    decreases segs.len(),
{
    if segs.len() == 0 || !m.contains_key(segs[0]) {
        None
    } else {
        match m[segs[0]] {
            Entry::Service(h) => Some(h),
            Entry::Route(r) => resolve_in(r@, segs.drop_first()),
        }
    }
}

/// The outcome of inserting `e` at `k` into `m`: the new mapping and the result.
pub open spec fn insert_outcome<H>(m: Map<Seq<u8>, Entry<H>>, k: Seq<u8>, e: Entry<H>) -> (
    Map<Seq<u8>, Entry<H>>,
    Result<(), Failure>,
) {
    if m.contains_key(k) {
        (m, Err(Failure::InUse))
    } else {
        (m.insert(k, e), Ok(()))
    }
}

/// Splitting `p` at every `sep` byte.
pub open spec fn split_on(p: Seq<u8>, sep: u8) -> Seq<Seq<u8>>
    decreases p.len(),
{
    if p.len() == 0 {
        seq![Seq::<u8>::empty()]
    } else {
        let init = split_on(p.drop_last(), sep);
        if p.last() == sep {
            init.push(Seq::<u8>::empty())
        } else {
            init.update(init.len() - 1, init.last().push(p.last()))
        }
    }
}

/// The segments of a service path: its UTF-8 bytes split at `/`.
pub open spec fn path_segments(path: Seq<char>) -> Seq<Seq<u8>> {
    split_on(encode_utf8(path), 47u8)
}

/// Whether some segment is empty (an empty path, or a stray `/`).
pub open spec fn has_empty_segment(segs: Seq<Seq<u8>>) -> bool {
    exists|i: int| 0 <= i < segs.len() && #[trigger] segs[i].len() == 0
}

/// Resolution of a path in the mapping `m`: empty segments are invalid, and a
/// path that leads to no handler is not found.
pub open spec fn path_resolution<H>(m: Map<Seq<u8>, Entry<H>>, path: Seq<char>) -> Result<H, Failure> {
    if has_empty_segment(path_segments(path)) {
        Err(Failure::InvalidData)
    } else {
        match resolve_in(m, path_segments(path)) {
            Some(h) => Ok(h),
            None => Err(Failure::NotFound),
        }
    }
}

/// What the introduction protocol makes of the record `payload` that a client
/// sent first: the path is read as a bincode string.
pub open spec fn introduction<H>(m: Map<Seq<u8>, Entry<H>>, payload: Seq<u8>) -> Result<H, Failure> {
    if !bincode_frames_str(payload) {
        Err(Failure::InvalidData)
    } else {
        path_resolution(m, bincode_str_at(payload))
    }
}

/// The status that answers an introduction with result `r`.
pub open spec fn reply_of<H>(r: Result<H, Failure>) -> Status {
    if r is Ok {
        Status::Found
    } else {
        Status::NotFound
    }
}

proof fn lemma_split_nonempty(p: Seq<u8>, sep: u8)
    ensures
        split_on(p, sep).len() >= 1,
    decreases p.len(),
{
    if p.len() > 0 {
        lemma_split_nonempty(p.drop_last(), sep);
    }
}

proof fn lemma_entries_absent<H>(s: Seq<(Vec<u8>, Entry<H>)>, k: Seq<u8>)
    requires
        forall|j: int| 0 <= j < s.len() ==> (#[trigger] s[j]).0@ != k,
    ensures
        !entries_map(s).contains_key(k),
    decreases s.len(),
{
    if s.len() > 0 {
        lemma_entries_absent(s.drop_last(), k);
    }
}

proof fn lemma_entries_last<H>(s: Seq<(Vec<u8>, Entry<H>)>, i: int, k: Seq<u8>)
    requires
        0 <= i < s.len(),
        s[i].0@ == k,
        forall|j: int| i < j < s.len() ==> (#[trigger] s[j]).0@ != k,
    ensures
        entries_map(s).contains_key(k),
        entries_map(s)[k] == s[i].1,
    decreases s.len(),
{
    if i < s.len() - 1 {
        lemma_entries_last(s.drop_last(), i, k);
    }
}

proof fn lemma_entries_remove<H>(s: Seq<(Vec<u8>, Entry<H>)>, i: int, k: Seq<u8>)
    requires
        0 <= i < s.len(),
        s[i].0@ == k,
    ensures
        entries_map(s.remove(i)).remove(k) == entries_map(s).remove(k),
    decreases s.len(),
{
    if i == s.len() - 1 {
        assert(s.remove(i) =~= s.drop_last());
        assert(entries_map(s).remove(k) =~= entries_map(s.drop_last()).remove(k));
    } else {
        lemma_entries_remove(s.drop_last(), i, k);
        assert(s.remove(i).drop_last() =~= s.drop_last().remove(i));
        assert(s.remove(i).last() == s.last());
        assert(entries_map(s.remove(i)) == entries_map(s.remove(i).drop_last()).insert(
            s.last().0@,
            s.last().1,
        ));
        assert(entries_map(s) == entries_map(s.drop_last()).insert(s.last().0@, s.last().1));
        let a = entries_map(s.remove(i).drop_last());
        let b = entries_map(s.drop_last());
        assert(a.remove(k) == b.remove(k));
        if s.last().0@ == k {
            assert(a.insert(k, s.last().1).remove(k) =~= a.remove(k));
            assert(b.insert(k, s.last().1).remove(k) =~= b.remove(k));
        } else {
            assert(a.insert(s.last().0@, s.last().1).remove(k) =~= a.remove(k).insert(
                s.last().0@,
                s.last().1,
            ));
            assert(b.insert(s.last().0@, s.last().1).remove(k) =~= b.remove(k).insert(
                s.last().0@,
                s.last().1,
            ));
        }
    }
}

/// Inserting at a key succeeds once: a second insertion at the same key, of
/// whatever entry, fails with `InUse` and leaves the first in place.
pub proof fn lemma_insert_exclusive<H>(m: Map<Seq<u8>, Entry<H>>, k: Seq<u8>, e1: Entry<H>, e2: Entry<H>)
    requires
        !m.contains_key(k),
    ensures
        insert_outcome(m, k, e1).1 == Ok::<(), Failure>(()),
        insert_outcome(insert_outcome(m, k, e1).0, k, e2).1 == Err::<(), Failure>(Failure::InUse),
        insert_outcome(insert_outcome(m, k, e1).0, k, e2).0[k] == e1,
{
}

/// A path whose first segment names a sub-route resolves as the rest of the
/// path does inside that sub-route; one whose first segment names a handler
/// resolves to that handler.
pub proof fn lemma_resolve_nested<H>(m: Map<Seq<u8>, Entry<H>>, head: Seq<u8>, rest: Seq<Seq<u8>>)
    requires
        m.contains_key(head),
    ensures
        m[head] is Route ==> resolve_in(m, seq![head] + rest) == resolve_in(
            m[head]->Route_0@,
            rest,
        ),
        m[head] is Service ==> resolve_in(m, seq![head] + rest) == Some(m[head]->Service_0),
{
    assert((seq![head] + rest).drop_first() =~= rest);
}

/// A client's path is answered `Found` exactly when none of its segments is
/// empty and they lead, through sub-routes, to a handler; the handler then
/// dispatched is that one. Every other path is answered `NotFound`.
pub proof fn lemma_introduction_found<H>(m: Map<Seq<u8>, Entry<H>>, path: Seq<char>)
    ensures
        reply_of(path_resolution(m, path)) == Status::Found <==> (!has_empty_segment(
            path_segments(path),
        ) && resolve_in(m, path_segments(path)) is Some),
        path_resolution(m, path) is Ok ==> path_resolution(m, path)->Ok_0 == resolve_in(
            m,
            path_segments(path),
        )->0,
{
}

fn bytes_eq(a: &[u8], b: &[u8]) -> (r: bool)
    ensures
        r == (a@ == b@),
{
    if a.len() != b.len() {
        return false;
    }
    let mut i: usize = 0;
    while i < a.len()
        invariant
            a@.len() == b@.len(),
            i <= a@.len(),
            a@.subrange(0, i as int) == b@.subrange(0, i as int),
        decreases a@.len() - i,
    {
        if a[i] != b[i] {
            assert(a@[i as int] != b@[i as int]);
            return false;
        }
        i = i + 1;
        assert(a@.subrange(0, i as int) =~= b@.subrange(0, i as int)) by {
            assert(a@.subrange(0, i - 1) == b@.subrange(0, i - 1));
            assert forall|j: int| 0 <= j < i implies a@[j] == b@[j] by {
                if j < i - 1 {
                    assert(a@.subrange(0, i - 1)[j] == b@.subrange(0, i - 1)[j]);
                }
            }
        }
    }
    assert(a@ =~= a@.subrange(0, a@.len() as int));
    assert(b@ =~= b@.subrange(0, b@.len() as int));
    true
}

fn key_of(at: &str) -> (r: Vec<u8>)
    ensures
        r@ == encode_utf8(at@),
{
    let bytes = at.as_bytes();
    let mut out: Vec<u8> = Vec::new();
    let mut i: usize = 0;
    while i < bytes.len()
        invariant
            i <= bytes@.len(),
            out@ == bytes@.subrange(0, i as int),
        decreases bytes@.len() - i,
    {
        out.push(bytes[i]);
        i = i + 1;
        assert(bytes@.subrange(0, i as int) =~= bytes@.subrange(0, i - 1) + seq![bytes@[i - 1]]);
    }
    assert(bytes@.subrange(0, bytes@.len() as int) =~= bytes@);
    out
}

/// Splits `p` at every `/`.
fn split_path(p: &[u8]) -> (r: Vec<Vec<u8>>)
    ensures
        r@.map_values(|v: Vec<u8>| v@) == split_on(p@, 47u8),
{
    let mut segs: Vec<Vec<u8>> = Vec::new();
    let mut cur: Vec<u8> = Vec::new();
    let mut i: usize = 0;
    while i < p.len()
        invariant
            i <= p@.len(),
            segs@.map_values(|v: Vec<u8>| v@).push(cur@) == split_on(p@.subrange(0, i as int), 47u8),
        decreases p@.len() - i,
    {
        let ghost before = p@.subrange(0, i as int);
        let ghost old_segs = segs@.map_values(|v: Vec<u8>| v@);
        let ghost old_cur = cur@;
        let b = p[i];
        i = i + 1;
        assert(p@.subrange(0, i as int).drop_last() =~= before);
        if b == 47u8 {
            segs.push(cur);
            cur = Vec::new();
            assert(segs@.map_values(|v: Vec<u8>| v@) =~= old_segs.push(old_cur));
        } else {
            cur.push(b);
            proof {
                lemma_split_nonempty(before, 47u8);
                assert(segs@.map_values(|v: Vec<u8>| v@).push(cur@) =~= old_segs.push(old_cur).update(
                    old_segs.len() as int,
                    old_cur.push(b),
                ));
            }
        }
    }
    assert(p@.subrange(0, p@.len() as int) =~= p@);
    segs.push(cur);
    segs
}

impl Status {
    /// The byte that stands for this status.
    pub fn to_byte(&self) -> (r: u8)
        ensures
            r == status_byte(*self),
    {
        match self {
            Status::Found => 1,
            Status::NotFound => 2,
        }
    }

    /// Reads a status byte; any other byte is `InvalidData`.
    pub fn from_byte(b: u8) -> (r: Result<Status, Failure>)
        ensures
            match r {
                Ok(s) => status_byte(s) == b,
                Err(e) => e == Failure::InvalidData && b != 1 && b != 2,
            },
    {
        match b {
            1 => Ok(Status::Found),
            2 => Ok(Status::NotFound),
            _ => Err(Failure::InvalidData),
        }
    }

    /// The status that answers an introduction with the given result.
    pub fn reply_to<T>(r: &Result<T, Failure>) -> (s: Status)
        ensures
            s == reply_of(*r),
    {
        match r {
            Ok(_) => Status::Found,
            Err(_) => Status::NotFound,
        }
    }
}

impl<H> View for Route<H> {
    type V = Map<Seq<u8>, Entry<H>>;

    closed spec fn view(&self) -> Map<Seq<u8>, Entry<H>> {
        entries_map(self.entries@)
    }
}

impl<H> Route<H> {
    /// An empty route.
    pub fn new() -> (r: Route<H>)
        ensures
            r@ == Map::<Seq<u8>, Entry<H>>::empty(),
    {
        proof {
            assert(entries_map(Seq::<(Vec<u8>, Entry<H>)>::empty()) =~= Map::<Seq<u8>, Entry<H>>::empty());
        }
        Route { entries: Vec::new() }
    }

    /// What the route holds at `key`.
    pub fn lookup(&self, key: &[u8]) -> (r: Option<&Entry<H>>)
        ensures
            match r {
                Some(e) => self@.contains_key(key@) && self@[key@] == *e,
                None => !self@.contains_key(key@),
            },
    {
        let mut i: usize = self.entries.len();
        while i > 0
            invariant
                i <= self.entries@.len(),
                forall|j: int| i <= j < self.entries@.len() ==> (#[trigger] self.entries@[j]).0@ != key@,
            decreases i,
        {
            i = i - 1;
            if bytes_eq(&self.entries[i].0, key) {
                proof {
                    lemma_entries_last(self.entries@, i as int, key@);
                }
                return Some(&self.entries[i].1);
            }
        }
        proof {
            lemma_entries_absent(self.entries@, key@);
        }
        None
    }

    /// Whether the route holds anything at `key`.
    pub fn contains(&self, key: &[u8]) -> (r: bool)
        ensures
            r == self@.contains_key(key@),
    {
        self.lookup(key).is_some()
    }

    fn insert_at(&mut self, at: &str, e: Entry<H>) -> (r: Result<(), Failure>)
        ensures
            (final(self)@, r) == insert_outcome(old(self)@, encode_utf8(at@), e),
    {
        let key = key_of(at);
        if self.contains(&key) {
            return Err(Failure::InUse);
        }
        self.entries.push((key, e));
        proof {
            assert(self.entries@.drop_last() =~= old(self).entries@);
        }
        Ok(())
    }

    /// Adds a service handler at `at`; fails with `InUse` if the key is taken,
    /// leaving the route as it was.
    pub fn add_service_at(&mut self, at: &str, handler: H) -> (r: Result<(), Failure>)
        ensures
            (final(self)@, r) == insert_outcome(old(self)@, encode_utf8(at@), Entry::Service(handler)),
    {
        self.insert_at(at, Entry::Service(handler))
    }

    /// Adds a sub-route at `at`; fails with `InUse` if the key is taken,
    /// leaving the route as it was.
    pub fn add_route_at(&mut self, at: &str, route: Route<H>) -> (r: Result<(), Failure>)
        ensures
            (final(self)@, r) == insert_outcome(old(self)@, encode_utf8(at@), Entry::Route(route)),
    {
        self.insert_at(at, Entry::Route(route))
    }

    /// Removes the service or sub-route at `at`; fails with `NotFound` if there
    /// is none.
    pub fn remove_at(&mut self, at: &str) -> (r: Result<(), Failure>)
        ensures
            old(self)@.contains_key(encode_utf8(at@)) ==> r is Ok && final(self)@ == old(self)@.remove(
                encode_utf8(at@),
            ),
            !old(self)@.contains_key(encode_utf8(at@)) ==> r == Err::<(), Failure>(Failure::NotFound)
                && final(self)@ == old(self)@,
    {
        let key = key_of(at);
        if !self.contains(&key) {
            return Err(Failure::NotFound);
        }
        let ghost k = key@;
        let mut i: usize = self.entries.len();
        while i > 0
            invariant
                i <= self.entries@.len(),
                k == key@,
                entries_map(self.entries@).remove(k) == old(self)@.remove(k),
                forall|j: int| i <= j < self.entries@.len() ==> (#[trigger] self.entries@[j]).0@ != k,
            decreases i,
        {
            i = i - 1;
            if bytes_eq(&self.entries[i].0, &key) {
                proof {
                    lemma_entries_remove(self.entries@, i as int, k);
                }
                let ghost before = self.entries@;
                self.entries.remove(i);
                assert forall|j: int| i <= j < self.entries@.len() implies (#[trigger] self.entries@[j]).0@
                    != k by {
                    assert(self.entries@[j] == before[j + 1]);
                }
            }
        }
        proof {
            lemma_entries_absent(self.entries@, k);
            assert(entries_map(self.entries@) =~= entries_map(self.entries@).remove(k));
        }
        Ok(())
    }

    /// Adds a service handler at the endpoint that `T` declares.
    pub fn add_service<T: RegisterEndpoint>(&mut self, handler: H) -> (r: Result<(), Failure>)
        ensures
            (final(self)@, r) == insert_outcome(
                old(self)@,
                encode_utf8(T::ENDPOINT@),
                Entry::Service(handler),
            ),
    {
        self.add_service_at(T::ENDPOINT, handler)
    }

    /// Removes the service at the endpoint that `T` declares.
    pub fn remove_service<T: RegisterEndpoint>(&mut self) -> (r: Result<(), Failure>)
        ensures
            old(self)@.contains_key(encode_utf8(T::ENDPOINT@)) ==> r is Ok
                && final(self)@ == old(self)@.remove(encode_utf8(T::ENDPOINT@)),
            !old(self)@.contains_key(encode_utf8(T::ENDPOINT@)) ==> r == Err::<(), Failure>(
                Failure::NotFound,
            ) && final(self)@ == old(self)@,
    {
        self.remove_at(T::ENDPOINT)
    }

    /// Removes the route registered at the endpoint that `T` declares.
    pub fn remove_register<T: Register<H>>(&mut self) -> (r: Result<(), Failure>)
        ensures
            old(self)@.contains_key(encode_utf8(T::ENDPOINT@)) ==> r is Ok
                && final(self)@ == old(self)@.remove(encode_utf8(T::ENDPOINT@)),
            !old(self)@.contains_key(encode_utf8(T::ENDPOINT@)) ==> r == Err::<(), Failure>(
                Failure::NotFound,
            ) && final(self)@ == old(self)@,
    {
        self.remove_at(T::ENDPOINT)
    }

    /// Lets `T` fill a new route, then adds that route at `at`. A key already
    /// taken is `InUse` (and `T` is not asked); a failure of `T` is returned as
    /// it is. Either failure leaves this route as it was.
    pub fn register_route_at<T: Register<H>>(&mut self, at: &str, meta: T::Meta) -> (r: Result<
        (),
        Failure,
    >)
        ensures
            r is Err ==> final(self)@ == old(self)@,
            old(self)@.contains_key(encode_utf8(at@)) ==> r == Err::<(), Failure>(Failure::InUse),
            r is Ok ==> !old(self)@.contains_key(encode_utf8(at@)) && final(self)@.contains_key(
                encode_utf8(at@),
            ) && final(self)@[encode_utf8(at@)] is Route && final(self)@.remove(encode_utf8(at@))
                == old(self)@.remove(encode_utf8(at@)),
    {
        if self.contains(&key_of(at)) {
            return Err(Failure::InUse);
        }
        let mut route: Route<H> = Route::new();
        T::register(&mut route, meta)?;
        let r = self.add_route_at(at, route);
        proof {
            if r is Ok {
                assert(self@.remove(encode_utf8(at@)) =~= old(self)@.remove(encode_utf8(at@)));
            }
        }
        r
    }

    /// Lets `T` fill a new route, then adds it at the endpoint `T` declares.
    pub fn register_route<T: Register<H>>(&mut self, meta: T::Meta) -> (r: Result<(), Failure>)
        ensures
            r is Err ==> final(self)@ == old(self)@,
            old(self)@.contains_key(encode_utf8(T::ENDPOINT@)) ==> r == Err::<(), Failure>(
                Failure::InUse,
            ),
            r is Ok ==> !old(self)@.contains_key(encode_utf8(T::ENDPOINT@))
                && final(self)@.contains_key(encode_utf8(T::ENDPOINT@))
                && final(self)@[encode_utf8(T::ENDPOINT@)] is Route
                && final(self)@.remove(encode_utf8(T::ENDPOINT@)) == old(self)@.remove(encode_utf8(T::ENDPOINT@)),
    {
        self.register_route_at::<T>(T::ENDPOINT, meta)
    }

    /// Lets `T` register itself directly on this route.
    pub fn register<T: Register<H>>(&mut self, meta: T::Meta) -> (r: Result<(), Failure>) {
        T::register(self, meta)
    }

    /// The handler that the segments `segs` lead to, if any.
    pub fn resolve(&self, segs: &Vec<Vec<u8>>) -> (r: Option<&H>)
        ensures
            match r {
                Some(h) => resolve_in(self@, segs@.map_values(|v: Vec<u8>| v@)) == Some(*h),
                None => resolve_in(self@, segs@.map_values(|v: Vec<u8>| v@)) is None,
            },
    {
        let ghost all = segs@.map_values(|v: Vec<u8>| v@);
        let mut node: &Route<H> = self;
        let mut i: usize = 0;
        assert(all.subrange(0, all.len() as int) =~= all);
        while i < segs.len()
            invariant
                i <= segs@.len(),
                all == segs@.map_values(|v: Vec<u8>| v@),
                resolve_in(self@, all) == resolve_in(node@, all.subrange(i as int, all.len() as int)),
            decreases segs@.len() - i,
        {
            let ghost rest = all.subrange(i as int, all.len() as int);
            assert(rest[0] == segs@[i as int]@);
            match node.lookup(&segs[i]) {
                None => {
                    return None;
                },
                Some(Entry::Service(h)) => {
                    return Some(h);
                },
                Some(Entry::Route(r)) => {
                    assert(rest.drop_first() =~= all.subrange(i + 1, all.len() as int));
                    node = r;
                    i = i + 1;
                },
            }
        }
        None
    }

    /// Resolves a service path: empty segments are `InvalidData`, and a path
    /// that leads to no handler is `NotFound`.
    pub fn resolve_path(&self, path: &str) -> (r: Result<&H, Failure>)
        ensures
            match r {
                Ok(h) => path_resolution(self@, path@) == Ok::<H, Failure>(*h),
                Err(e) => path_resolution(self@, path@) == Err::<H, Failure>(e),
            },
    {
        let segs = split_path(path.as_bytes());
        let ghost sv = segs@.map_values(|v: Vec<u8>| v@);
        assert(sv == path_segments(path@));
        let mut i: usize = 0;
        while i < segs.len()
            invariant
                i <= segs@.len(),
                sv == segs@.map_values(|v: Vec<u8>| v@),
                sv == path_segments(path@),
                forall|j: int| 0 <= j < i ==> (#[trigger] sv[j]).len() != 0,
            decreases segs@.len() - i,
        {
            if segs[i].len() == 0 {
                assert(sv[i as int].len() == 0);
                assert(has_empty_segment(sv));
                return Err(Failure::InvalidData);
            }
            i = i + 1;
        }
        match self.resolve(&segs) {
            Some(h) => Ok(h),
            None => Err(Failure::NotFound),
        }
    }

    /// The server side of the introduction protocol: reads the service path from
    /// the first record `payload` a client sent (a bincode string) and resolves
    /// it. An unreadable or empty path is `InvalidData`; a path that leads to no
    /// handler is `NotFound`.
    pub fn introduce(&self, payload: &[u8]) -> (r: Result<&H, Failure>)
        ensures
            match r {
                Ok(h) => introduction(self@, payload@) == Ok::<H, Failure>(*h),
                Err(e) => introduction(self@, payload@) == Err::<H, Failure>(e),
            },
    {
        match Bincode.deserialize_str(payload) {
            Ok(path) => self.resolve_path(&path),
            Err(e) => Err(e),
        }
    }
}

} // verus!
