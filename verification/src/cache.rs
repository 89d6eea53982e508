use vstd::prelude::*;

use crate::paths::{file_name, path_file_name};
use crate::platform::clock_now;
use crate::request::HTTP_Request;

verus! {

/// The most bytes the file cache holds; a file of this size or more is never cached.
pub const MAX_SIZE: u64 = 6000000;

/// A cached file: its size, its bytes, how often it was served and when last.
pub struct Page {
    pub size: u64,
    pub data: Vec<u8>,
    pub accesses: u64,
    pub last_access: u64,
}

impl Page {
    /// A page for freshly read data: never served yet, stamped with the time `now`.
    pub fn new_at(size: u64, data: Vec<u8>, now: u64) -> (p: Page)
        ensures
            p.size == size,
            p.data@ == data@,
            p.accesses == 0,
            p.last_access == now,
    {
        Page { size, data, accesses: 0, last_access: now }
    }

    /// A page for freshly read data: never served yet, stamped with the current time.
    pub fn new(size: u64, data: Vec<u8>) -> (p: Page)
        ensures
            p.size == size,
            p.data@ == data@,
            p.accesses == 0,
    {
        Page::new_at(size, data, clock_now())
    }

    /// Counts one more access (wrapping around at the top of `u64`) and stamps the page with
    /// the time `now`.
    pub fn update_at(&mut self, now: u64)
        ensures
            final(self).size == old(self).size,
            final(self).data@ == old(self).data@,
            final(self).accesses == next_count(old(self).accesses),
            final(self).last_access == now,
    {
        self.accesses = if self.accesses == u64::MAX { 0 } else { self.accesses + 1 };
        self.last_access = now;
    }

    /// Counts one more access (wrapping around at the top of `u64`) and stamps the page with
    /// the current time.
    pub fn update(&mut self)
        ensures
            final(self).size == old(self).size,
            final(self).data@ == old(self).data@,
            final(self).accesses == next_count(old(self).accesses),
    {
        self.update_at(clock_now());
    }
}

/// The access count after one more access.
pub open spec fn next_count(n: u64) -> u64 {
    if n == u64::MAX { 0 } else { (n + 1) as u64 }
}

/// A page together with the file name it is cached under.
pub struct CacheEntry {
    pub name: String,
    pub page: Page,
}

/// The sum of the sizes of the pages in `s`.
pub open spec fn total_size(s: Seq<CacheEntry>) -> int
    decreases s.len(),
{
    if s.len() == 0 {
        0
    } else {
        total_size(s.drop_last()) + s.last().page.size
    }
}

/// No two entries of `s` share a name.
pub open spec fn names_distinct(s: Seq<CacheEntry>) -> bool {
    forall|i: int, j: int| 0 <= i < s.len() && 0 <= j < s.len() && i != j ==> s[i].name@ != s[j].name@
}

/// Some entry of `s` is named `name`.
pub open spec fn holds(s: Seq<CacheEntry>, name: Seq<char>) -> bool {
    exists|i: int| 0 <= i < s.len() && s[i].name@ == name
}

/// The position of the entry named `name` in `s` (meaningful where `holds(s, name)`).
pub open spec fn position_of(s: Seq<CacheEntry>, name: Seq<char>) -> int {
    choose|i: int| 0 <= i < s.len() && s[i].name@ == name
}

/// Entry `i` was accessed no later than every entry, and strictly earlier than every entry
/// before it: the one a left-to-right scan for the oldest access picks.
pub open spec fn is_first_oldest(s: Seq<CacheEntry>, i: int) -> bool {
    &&& 0 <= i < s.len()
    &&& forall|j: int| 0 <= j < s.len() ==> s[i].page.last_access <= s[j].page.last_access
    &&& forall|j: int| 0 <= j < i ==> s[j].page.last_access > s[i].page.last_access
}

/// The position of the least recently accessed entry (the first such one).
pub open spec fn oldest_index(s: Seq<CacheEntry>) -> int {
    choose|i: int| is_first_oldest(s, i)
}

/// `s` without its least recently accessed entry (unchanged when empty).
pub open spec fn evict_oldest(s: Seq<CacheEntry>) -> Seq<CacheEntry> {
    if s.len() == 0 {
        s
    } else {
        s.remove(oldest_index(s))
    }
}

/// `s` with entry `e` stored: it replaces the entry of the same name, or is added at the end.
pub open spec fn put_entry(s: Seq<CacheEntry>, e: CacheEntry) -> Seq<CacheEntry> {
    if holds(s, e.name@) {
        s.update(position_of(s, e.name@), e)
    } else {
        s.push(e)
    }
}

/// `t` is `s` after the page named `name` was served as `data`: that page counts one more
/// access, its name, size and bytes stay, `data` is its bytes, and every other entry stays.
pub open spec fn served(s: Seq<CacheEntry>, t: Seq<CacheEntry>, name: Seq<char>, data: Seq<u8>) -> bool {
    let i = position_of(s, name);
    &&& t.len() == s.len()
    &&& forall|j: int| 0 <= j < s.len() && j != i ==> t[j] == s[j]
    &&& t[i].name@ == name
    &&& t[i].page.size == s[i].page.size
    &&& t[i].page.data@ == s[i].page.data@
    &&& t[i].page.accesses == next_count(s[i].page.accesses)
    &&& data == s[i].page.data@
}

/// `t` is `s` after the page named `name` was served as `data` at the time `now`: as in
/// `served`, and the page is stamped with `now`.
pub open spec fn served_at(s: Seq<CacheEntry>, t: Seq<CacheEntry>, name: Seq<char>, data: Seq<u8>, now: u64) -> bool {
    &&& served(s, t, name, data)
    &&& t[position_of(s, name)].page.last_access == now
}

/// `s` after room was made for `size` more bytes under `limit`: the least recently
/// accessed entries go, one by one, as long as the cache is too full.
pub open spec fn make_room(s: Seq<CacheEntry>, size: u64, limit: u64) -> Seq<CacheEntry>
    decreases s.len(),
{
    if total_size(s) + size > limit && s.len() > 0 {
        proof {
            lemma_evict_oldest_len(s);
        }
        make_room(evict_oldest(s), size, limit)
    } else {
        s
    }
}

/// `t` is `s` with the page for `data` (of `size` bytes, not yet served, stamped with
/// `now`) stored under `name`.
pub open spec fn stored_at(s: Seq<CacheEntry>, t: Seq<CacheEntry>, name: Seq<char>, size: u64, data: Seq<u8>, now: u64) -> bool {
    exists|e: CacheEntry|
        #![trigger put_entry(s, e)]
        e.name@ == name && e.page.size == size && e.page.data@ == data && e.page.accesses == 0
            && e.page.last_access == now && t == put_entry(s, e)
}

/// `t` is `s` (a cache limited to `limit` bytes) after the `size` bytes `data` were offered
/// under `name` at the time `now`: a file of the limit or more leaves the cache as it was; for
/// a smaller one room is made and the page, stamped with `now`, is stored.
pub open spec fn loaded_at(s: Seq<CacheEntry>, limit: u64, t: Seq<CacheEntry>, name: Seq<char>, size: u64, data: Seq<u8>, now: u64) -> bool {
    if size >= limit {
        t == s
    } else {
        stored_at(make_room(s, size, limit), t, name, size, data, now)
    }
}

/// No entry of `s` was stamped later than `now`.
pub open spec fn not_before_any(s: Seq<CacheEntry>, now: u64) -> bool {
    forall|j: int| 0 <= j < s.len() ==> s[j].page.last_access <= now
}

/// The cache `t` holds the page for `data` (of `size` bytes, not yet served) under `name`.
pub open spec fn holds_page(t: Seq<CacheEntry>, name: Seq<char>, size: u64, data: Seq<u8>) -> bool {
    &&& holds(t, name)
    &&& t[position_of(t, name)].page.data@ == data
    &&& t[position_of(t, name)].page.size == size
    &&& t[position_of(t, name)].page.accesses == 0
}

/// Evicting from a non-empty sequence removes one entry.
pub proof fn lemma_evict_oldest_len(s: Seq<CacheEntry>)
    requires
        s.len() > 0,
    ensures
        evict_oldest(s).len() == s.len() - 1,
{
    lemma_oldest_exists(s);
}

pub proof fn lemma_total_size_nonneg(s: Seq<CacheEntry>)
    ensures
        total_size(s) >= 0,
    decreases s.len(),
{
    if s.len() > 0 {
        lemma_total_size_nonneg(s.drop_last());
    }
}

pub proof fn lemma_total_size_update(s: Seq<CacheEntry>, i: int, e: CacheEntry)
    requires
        0 <= i < s.len(),
    ensures
        total_size(s.update(i, e)) == total_size(s) - s[i].page.size + e.page.size,
    decreases s.len(),
{
    if i < s.len() - 1 {
        assert(s.update(i, e).drop_last() =~= s.drop_last().update(i, e));
        lemma_total_size_update(s.drop_last(), i, e);
    } else {
        assert(s.update(i, e).drop_last() =~= s.drop_last());
    }
}

pub proof fn lemma_total_size_remove(s: Seq<CacheEntry>, i: int)
    requires
        0 <= i < s.len(),
    ensures
        total_size(s.remove(i)) == total_size(s) - s[i].page.size,
    decreases s.len(),
{
    if i < s.len() - 1 {
        assert(s.remove(i).drop_last() =~= s.drop_last().remove(i));
        assert(s.remove(i).last() == s.last());
        lemma_total_size_remove(s.drop_last(), i);
    } else {
        assert(s.remove(i) =~= s.drop_last());
    }
}

/// A non-empty sequence of entries has a least recently accessed one.
pub proof fn lemma_oldest_exists(s: Seq<CacheEntry>)
    requires
        s.len() > 0,
    ensures
        is_first_oldest(s, oldest_index(s)),
    decreases s.len(),
{
    if s.len() == 1 {
        assert(is_first_oldest(s, 0));
    } else {
        let t = s.drop_last();
        lemma_oldest_exists(t);
        let k = oldest_index(t);
        if s.last().page.last_access < s[k].page.last_access {
            assert forall|j: int| 0 <= j < s.len() - 1 implies s[j].page.last_access > s.last().page.last_access by {
                assert(t[j] == s[j]);
            }
            assert(is_first_oldest(s, s.len() - 1));
        } else {
            assert forall|j: int| 0 <= j < s.len() implies s[k].page.last_access <= s[j].page.last_access by {
                if j < s.len() - 1 {
                    assert(t[j] == s[j]);
                }
            }
            assert forall|j: int| 0 <= j < k implies s[j].page.last_access > s[k].page.last_access by {
                assert(t[j] == s[j]);
            }
            assert(is_first_oldest(s, k));
        }
    }
}

/// Only one entry is the first oldest.
pub proof fn lemma_first_oldest_unique(s: Seq<CacheEntry>, i: int, j: int)
    requires
        is_first_oldest(s, i),
        is_first_oldest(s, j),
    ensures
        i == j,
{
    if i < j {
        assert(s[i].page.last_access > s[j].page.last_access);
        assert(s[i].page.last_access <= s[j].page.last_access);
    } else if j < i {
        assert(s[j].page.last_access > s[i].page.last_access);
        assert(s[j].page.last_access <= s[i].page.last_access);
    }
}

pub proof fn lemma_holds_position(s: Seq<CacheEntry>, name: Seq<char>)
    requires
        holds(s, name),
    ensures
        0 <= position_of(s, name) < s.len(),
        s[position_of(s, name)].name@ == name,
{
}

/// With distinct names, the entry named `name` stands exactly at `position_of`.
pub proof fn lemma_position_unique(s: Seq<CacheEntry>, name: Seq<char>, i: int)
    requires
        names_distinct(s),
        0 <= i < s.len(),
        s[i].name@ == name,
    ensures
        position_of(s, name) == i,
{
    lemma_holds_position(s, name);
}

/// Evicting keeps the names distinct and lowers the total by the evicted page's size.
pub proof fn lemma_evict_oldest(s: Seq<CacheEntry>)
    requires
        s.len() > 0,
        names_distinct(s),
    ensures
        names_distinct(evict_oldest(s)),
        evict_oldest(s).len() == s.len() - 1,
        total_size(evict_oldest(s)) == total_size(s) - s[oldest_index(s)].page.size,
{
    lemma_oldest_exists(s);
    let k = oldest_index(s);
    lemma_total_size_remove(s, k);
    let t = s.remove(k);
    assert forall|a: int, b: int| 0 <= a < t.len() && 0 <= b < t.len() && a != b implies t[a].name@ != t[b].name@ by {
        let a1 = if a < k { a } else { a + 1 };
        let b1 = if b < k { b } else { b + 1 };
        assert(t[a] == s[a1]);
        assert(t[b] == s[b1]);
    }
}

/// A cache of file pages under a size limit.
pub struct Cache {
    max_size: u64,
    current_size: u64,
    files: Vec<CacheEntry>,
}

impl View for Cache {
    type V = Seq<CacheEntry>;

    /// The cached entries, in the order they are scanned.
    closed spec fn view(&self) -> Seq<CacheEntry> {
        self.files@
    }
}

impl Cache {
    /// The size limit.
    pub closed spec fn limit(&self) -> u64 {
        self.max_size
    }

    /// The recorded number of cached bytes.
    pub closed spec fn used(&self) -> u64 {
        self.current_size
    }

    /// The recorded size is the sum of the page sizes, it stays within the limit, and no
    /// file name is cached twice.
    pub open spec fn wf(&self) -> bool {
        &&& self.used() == total_size(self@)
        &&& self.used() <= self.limit()
        &&& names_distinct(self@)
    }

    /// An empty cache limited to `MAX_SIZE` bytes.
    pub fn new() -> (c: Cache)
        ensures
            c.wf(),
            c@ == Seq::<CacheEntry>::empty(),
            c.limit() == MAX_SIZE,
            c.used() == 0,
    {
        let c = Cache { max_size: MAX_SIZE, current_size: 0, files: Vec::new() };
        assert(c@ =~= Seq::<CacheEntry>::empty());
        c
    }

    /// The size limit.
    pub fn max_size(&self) -> (m: u64)
        ensures
            m == self.limit(),
    {
        self.max_size
    }

    /// The number of cached bytes.
    pub fn current_size(&self) -> (n: u64)
        ensures
            n == self.used(),
    {
        self.current_size
    }

    /// The number of cached files.
    pub fn len(&self) -> (n: usize)
        ensures
            n == self@.len(),
    {
        self.files.len()
    }

    /// The page cached under `name`, if any.
    pub fn page(&self, name: &String) -> (p: Option<&Page>)
        requires
            self.wf(),
        ensures
            match p {
                Some(p) => holds(self@, name@) && *p == self@[position_of(self@, name@)].page,
                None => !holds(self@, name@),
            },
    {
        match self.find(name) {
            Some(i) => {
                proof {
                    if names_distinct(self@) {
                        lemma_position_unique(self@, name@, i as int);
                    }
                }
                Some(&self.files[i].page)
            },
            None => None,
        }
    }

    fn find(&self, name: &String) -> (r: Option<usize>)
        ensures
            match r {
                Some(i) => i < self@.len() && self@[i as int].name@ == name@ && (names_distinct(self@) ==> i == position_of(self@, name@)),
                None => !holds(self@, name@),
            },
    {
        let mut i: usize = 0;
        while i < self.files.len()
            invariant
                i <= self@.len(),
                forall|j: int| 0 <= j < i ==> self@[j].name@ != name@,
            decreases self@.len() - i,
        {
            if self.files[i].name == *name {
                proof {
                    if names_distinct(self@) {
                        lemma_position_unique(self@, name@, i as int);
                    }
                }
                return Some(i);
            }
            i = i + 1;
        }
        None
    }

    /// Whether the file the request names is cached.
    pub fn contains(&self, req: &HTTP_Request) -> (r: bool)
        requires
            path_file_name(req.path@) is Some,
        ensures
            r == holds(self@, path_file_name(req.path@)->0),
    {
        match file_name(req.path.as_str()) {
            Some(name) => self.find(&name).is_some(),
            None => false,
        }
    }

    /// Serves the page cached under `name` at the time `now`: counts the access, stamps the
    /// page with `now`, and returns a copy of its bytes.
    pub fn get_at(&mut self, name: &String, now: u64) -> (data: Vec<u8>)
        requires
            old(self).wf(),
            holds(old(self)@, name@),
        ensures
            final(self).wf(),
            final(self).limit() == old(self).limit(),
            final(self).used() == old(self).used(),
            served_at(old(self)@, final(self)@, name@, data@, now),
    {
        let i = match self.find(name) {
            Some(i) => i,
            None => {
                return Vec::new();
            },
        };
        let ghost s = self@;
        let mut e = self.files.remove(i);
        e.page.update_at(now);
        let data = e.page.data.clone();
        self.files.insert(i, e);
        proof {
            assert(data@ =~= s[i as int].page.data@);
            assert(self@ =~= s.update(i as int, e));
            lemma_total_size_update(s, i as int, e);
            assert forall|a: int, b: int| 0 <= a < self@.len() && 0 <= b < self@.len() && a != b implies self@[a].name@ != self@[b].name@ by {
                assert(s[a].name@ != s[b].name@);
            }
        }
        data
    }

    /// Serves the page cached under `name`: counts the access, stamps it with the current
    /// time (see `current_time`), and returns a copy of its bytes.
    pub fn get(&mut self, name: &String) -> (data: Vec<u8>)
        requires
            old(self).wf(),
            holds(old(self)@, name@),
        ensures
            final(self).wf(),
            final(self).limit() == old(self).limit(),
            final(self).used() == old(self).used(),
            served(old(self)@, final(self)@, name@, data@),
            exists|now: u64| served_at(old(self)@, final(self)@, name@, data@, now) && not_before_any(old(self)@, now),
    {
        let now = self.current_time();
        self.get_at(name, now)
    }

    /// The time to stamp a page with: the clock's reading, or the newest stamp in the cache
    /// when the clock reads earlier, so that a page stamped now is never older than a page
    /// stamped before.
    pub fn current_time(&self) -> (t: u64)
        ensures
            not_before_any(self@, t),
    {
        let mut t = clock_now();
        let n = self.files.len();
        for i in 0..n
            invariant
                n == self@.len(),
                forall|j: int| 0 <= j < i ==> self@[j].page.last_access <= t,
        {
            if self.files[i].page.last_access > t {
                t = self.files[i].page.last_access;
            }
        }
        t
    }

    /// Drops the least recently accessed page (the first such one), and lowers the recorded
    /// size by its size; an empty cache stays as it is.
    pub fn remove_oldest(&mut self)
        requires
            old(self).wf(),
        ensures
            final(self).wf(),
            final(self).limit() == old(self).limit(),
            old(self)@.len() > 0 ==> final(self)@ == evict_oldest(old(self)@),
            old(self)@.len() == 0 ==> final(self)@ == old(self)@,
    {
        let ghost s = self@;
        let n = self.files.len();
        if n == 0 {
            return;
        }
        let mut o_val: u64 = self.files[0].page.last_access;
        let mut o_idx: usize = 0;
        for i in 1..n
            invariant
                n == s.len(),
                s == self@,
                o_idx < i,
                o_val == s[o_idx as int].page.last_access,
                forall|j: int| 0 <= j < i ==> s[j].page.last_access >= o_val,
                forall|j: int| 0 <= j < o_idx ==> s[j].page.last_access > o_val,
        {
            if self.files[i].page.last_access < o_val {
                o_val = self.files[i].page.last_access;
                o_idx = i;
            }
        }
        proof {
            lemma_oldest_exists(s);
            assert(is_first_oldest(s, o_idx as int));
            lemma_first_oldest_unique(s, o_idx as int, oldest_index(s));
            lemma_evict_oldest(s);
            lemma_total_size_nonneg(s.remove(o_idx as int));
        }
        let v = self.files.remove(o_idx);
        self.current_size = self.current_size - v.page.size;
    }

    fn put(&mut self, e: CacheEntry)
        requires
            old(self).wf(),
            total_size(put_entry(old(self)@, e)) <= old(self).limit(),
        ensures
            final(self).wf(),
            final(self).limit() == old(self).limit(),
            final(self)@ == put_entry(old(self)@, e),
    {
        let ghost s = self@;
        match self.find(&e.name) {
            Some(i) => {
                proof {
                    lemma_total_size_update(s, i as int, e);
                    lemma_total_size_remove(s, i as int);
                    lemma_total_size_nonneg(s.remove(i as int));
                }
                let old_size = self.files[i].page.size;
                let new_size = e.page.size;
                self.files.set(i, e);
                self.current_size = self.current_size - old_size + new_size;
                proof {
                    assert forall|a: int, b: int| 0 <= a < self@.len() && 0 <= b < self@.len() && a != b implies self@[a].name@ != self@[b].name@ by {
                        assert(s[a].name@ != s[b].name@);
                    }
                }
            },
            None => {
                proof {
                    assert(s.push(e).drop_last() =~= s);
                }
                let new_size = e.page.size;
                self.files.push(e);
                self.current_size = self.current_size + new_size;
            },
        }
    }

    /// Caches `data`, the `size` bytes of the file at `path`, under the file's name at the
    /// time `now`, when the file is smaller than the limit. The recorded size counts every
    /// stored page, so room is made first: the least recently accessed pages are dropped, one
    /// by one, while the cache is too full for the new page. The page, stamped with `now`, is
    /// then stored.
    pub fn load_at(&mut self, path: &String, size: u64, data: Vec<u8>, now: u64)
        requires
            old(self).wf(),
            size < old(self).limit() ==> path_file_name(path@) is Some,
        ensures
            final(self).wf(),
            final(self).limit() == old(self).limit(),
            loaded_at(old(self)@, old(self).limit(), final(self)@, path_file_name(path@)->0, size, data@, now),
            size < old(self).limit() ==> {
                &&& holds_page(final(self)@, path_file_name(path@)->0, size, data@)
                &&& final(self)@[position_of(final(self)@, path_file_name(path@)->0)].page.last_access == now
            },
    {
        if size >= self.max_size {
            return;
        }
        let name = match file_name(path.as_str()) {
            Some(n) => n,
            None => {
                return;
            },
        };
        let ghost data_view = data@;
        let p = Page::new_at(size, data, now);
        let ghost s0 = self@;
        let ghost limit = self.max_size;
        while size > self.max_size - self.current_size
            invariant
                self.wf(),
                self.limit() == limit,
                size < limit,
                make_room(s0, size, limit) == make_room(self@, size, limit),
            decreases self@.len(),
        {
            let ghost prev = self@;
            proof {
                if prev.len() == 0 {
                    assert(total_size(prev) == 0);
                }
                lemma_evict_oldest(prev);
            }
            self.remove_oldest();
        }
        let e = CacheEntry { name, page: p };
        proof {
            let s = self@;
            if holds(s, e.name@) {
                lemma_holds_position(s, e.name@);
                lemma_total_size_update(s, position_of(s, e.name@), e);
                lemma_total_size_nonneg(s.remove(position_of(s, e.name@)));
                lemma_total_size_remove(s, position_of(s, e.name@));
            } else {
                assert(s.push(e).drop_last() =~= s);
            }
        }
        let ghost before_put = self@;
        self.put(e);
        proof {
            assert(stored_at(before_put, self@, path_file_name(path@)->0, size, data_view, now));
            law_loaded_file_is_cached(s0, limit, self@, path_file_name(path@)->0, size, data_view, now);
        }
    }

    /// Caches `data`, the `size` bytes of the file at `path`, under the file's name, as
    /// `load_at` does with the current time (see `current_time`).
    pub fn load(&mut self, path: &String, size: u64, data: Vec<u8>)
        requires
            old(self).wf(),
            size < old(self).limit() ==> path_file_name(path@) is Some,
        ensures
            final(self).wf(),
            final(self).limit() == old(self).limit(),
            exists|now: u64| loaded_at(old(self)@, old(self).limit(), final(self)@, path_file_name(path@)->0, size, data@, now)
                && not_before_any(old(self)@, now),
            size < old(self).limit() ==> holds_page(final(self)@, path_file_name(path@)->0, size, data@),
    {
        let now = self.current_time();
        self.load_at(path, size, data, now);
    }
}

} // verus!

verus! {

/// A well-formed cache never records more bytes than its limit, and what it records is the
/// sum of its page sizes.
pub proof fn law_cache_within_limit(c: &Cache)
    requires
        c.wf(),
    ensures
        total_size(c@) == c.used(),
        total_size(c@) <= c.limit(),
{
}

/// Making room keeps the names distinct.
pub proof fn lemma_make_room_distinct(s: Seq<CacheEntry>, size: u64, limit: u64)
    requires
        names_distinct(s),
    ensures
        names_distinct(make_room(s, size, limit)),
    decreases s.len(),
{
    if total_size(s) + size > limit && s.len() > 0 {
        lemma_evict_oldest(s);
        lemma_make_room_distinct(evict_oldest(s), size, limit);
    }
}

/// Once a page is stored, the cache holds its name, exactly once, with the stored bytes,
/// size and time stamp: a later lookup finds it and serving it hands back those bytes.
pub proof fn law_stored_file_is_served(s: Seq<CacheEntry>, t: Seq<CacheEntry>, name: Seq<char>, size: u64, data: Seq<u8>, now: u64)
    requires
        names_distinct(s),
        stored_at(s, t, name, size, data, now),
    ensures
        holds(t, name),
        t[position_of(t, name)].page.data@ == data,
        t[position_of(t, name)].page.size == size,
        t[position_of(t, name)].page.accesses == 0,
        t[position_of(t, name)].page.last_access == now,
{
    let e = choose|e: CacheEntry|
        #![trigger put_entry(s, e)]
        e.name@ == name && e.page.size == size && e.page.data@ == data && e.page.accesses == 0
            && e.page.last_access == now && t == put_entry(s, e);
    if holds(s, name) {
        lemma_holds_position(s, name);
        let i = position_of(s, name);
        assert(t[i] == e);
        assert(holds(t, name));
        assert forall|a: int| 0 <= a < t.len() && a != i implies t[a].name@ != name by {
            assert(t[a] == s[a]);
        }
        lemma_holds_position(t, name);
    } else {
        let i = s.len() as int;
        assert(t[i] == e);
        assert(holds(t, name));
        assert forall|a: int| 0 <= a < t.len() && a != i implies t[a].name@ != name by {
            assert(t[a] == s[a]);
        }
        lemma_holds_position(t, name);
    }
}

/// A file smaller than the limit is cached after loading, with its bytes, its size, no
/// access yet, and the time of loading.
pub proof fn law_loaded_file_is_cached(s: Seq<CacheEntry>, limit: u64, t: Seq<CacheEntry>, name: Seq<char>, size: u64, data: Seq<u8>, now: u64)
    requires
        names_distinct(s),
        size < limit,
        loaded_at(s, limit, t, name, size, data, now),
    ensures
        holds_page(t, name, size, data),
        t[position_of(t, name)].page.last_access == now,
{
    lemma_make_room_distinct(s, size, limit);
    law_stored_file_is_served(make_room(s, size, limit), t, name, size, data, now);
}

/// Making room for a file smaller than the limit always succeeds: the least recently
/// accessed pages go until the file fits, and an empty cache takes it.
pub proof fn law_room_is_made(s: Seq<CacheEntry>, size: u64, limit: u64)
    requires
        size < limit,
    ensures
        total_size(make_room(s, size, limit)) + size <= limit,
    decreases s.len(),
{
    if total_size(s) + size > limit && s.len() > 0 {
        lemma_evict_oldest_len(s);
        law_room_is_made(evict_oldest(s), size, limit);
    }
}

/// Making room evicts a page accessed no later than any other, and the first such one.
pub proof fn law_eviction_takes_oldest(s: Seq<CacheEntry>)
    requires
        s.len() > 0,
    ensures
        exists|i: int|
            #![trigger s.remove(i)]
            is_first_oldest(s, i) && evict_oldest(s) == s.remove(i),
{
    lemma_oldest_exists(s);
    let i = oldest_index(s);
    assert(is_first_oldest(s, i) && evict_oldest(s) == s.remove(i));
}

/// Serving a page changes no other page and keeps the total size.
pub proof fn law_serving_keeps_sizes(s: Seq<CacheEntry>, t: Seq<CacheEntry>, name: Seq<char>, data: Seq<u8>)
    requires
        holds(s, name),
        served(s, t, name, data),
    ensures
        total_size(t) == total_size(s),
{
    lemma_holds_position(s, name);
    let i = position_of(s, name);
    assert(t =~= s.update(i, t[i]));
    lemma_total_size_update(s, i, t[i]);
}

} // verus!

verus! {

proof fn lemma_make_room_not_later(s: Seq<CacheEntry>, size: u64, limit: u64, now: u64)
    requires
        not_before_any(s, now),
    ensures
        not_before_any(make_room(s, size, limit), now),
    decreases s.len(),
{
    if total_size(s) + size > limit && s.len() > 0 {
        lemma_oldest_exists(s);
        let t = evict_oldest(s);
        let k = oldest_index(s);
        assert forall|j: int| 0 <= j < t.len() implies t[j].page.last_access <= now by {
            if j < k {
                assert(t[j] == s[j]);
            } else {
                assert(t[j] == s[j + 1]);
            }
        }
        lemma_evict_oldest_len(s);
        lemma_make_room_not_later(t, size, limit, now);
    }
}

/// A page loaded at a time no earlier than every stamp in the cache is afterwards the most
/// recently accessed page: it carries that time, and no page carries a later one. Eviction
/// thus reaches it last.
pub proof fn law_loaded_page_is_newest(s: Seq<CacheEntry>, limit: u64, t: Seq<CacheEntry>, name: Seq<char>, size: u64, data: Seq<u8>, now: u64)
    requires
        names_distinct(s),
        size < limit,
        not_before_any(s, now),
        loaded_at(s, limit, t, name, size, data, now),
    ensures
        t[position_of(t, name)].page.last_access == now,
        forall|j: int| 0 <= j < t.len() ==> (#[trigger] t[j]).page.last_access <= t[position_of(t, name)].page.last_access,
{
    law_loaded_file_is_cached(s, limit, t, name, size, data, now);
    let r = make_room(s, size, limit);
    lemma_make_room_not_later(s, size, limit, now);
    let e = choose|e: CacheEntry|
        #![trigger put_entry(r, e)]
        e.name@ == name && e.page.size == size && e.page.data@ == data && e.page.accesses == 0
            && e.page.last_access == now && t == put_entry(r, e);
    assert forall|j: int| 0 <= j < t.len() implies t[j].page.last_access <= now by {
        if holds(r, name) {
            lemma_holds_position(r, name);
            if j != position_of(r, name) {
                assert(t[j] == r[j]);
            }
        } else {
            if j < r.len() {
                assert(t[j] == r[j]);
            }
        }
    }
}

/// A page served at a time no earlier than every stamp in the cache is afterwards the most
/// recently accessed page: eviction reaches it last.
pub proof fn law_served_page_is_newest(s: Seq<CacheEntry>, t: Seq<CacheEntry>, name: Seq<char>, data: Seq<u8>, now: u64)
    requires
        holds(s, name),
        names_distinct(s),
        not_before_any(s, now),
        served_at(s, t, name, data, now),
    ensures
        t[position_of(s, name)].name@ == name,
        t[position_of(s, name)].page.last_access == now,
        forall|j: int| 0 <= j < t.len() ==> (#[trigger] t[j]).page.last_access <= t[position_of(s, name)].page.last_access,
{
    lemma_holds_position(s, name);
    let i = position_of(s, name);
    assert forall|j: int| 0 <= j < t.len() implies t[j].page.last_access <= now by {
        if j != i {
            assert(t[j] == s[j]);
        }
    }
}

} // verus!
