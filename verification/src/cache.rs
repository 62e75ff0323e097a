//! The statement cache: a bounded map from query text to prepared-statement handle that
//! forgets the least recently used entry, and that lets one caller at a time prepare a
//! text that is not cached yet.
//!
//! The cache does not prepare anything itself. A caller asks with [`StatementCache::begin`]
//! and is told whether the handle is there, whether another caller is preparing it, or
//! whether to prepare it; in that last case the caller reports back with
//! [`StatementCache::complete`] or [`StatementCache::abandon`]. Callers that share a cache
//! guard it with a lock of their own.
use crate::text::{find_text, lemma_find_text, same_text, texts_view, without_text};
use vstd::prelude::*;

verus! {

/// What a caller is told who asks for the handle of a query text.
#[derive(Clone, Copy, Debug, PartialEq, Eq, Structural)]
pub enum Lookup {
    /// The handle is cached.
    Hit,
    /// Another caller is preparing the text: wait for it.
    Wait,
    /// Nobody has the text: prepare it, and report back.
    Prepare,
}

/// A cached handle with the text it belongs to.
#[derive(Debug)]
pub struct CacheEntry<H> {
    text: String,
    handle: H,
}

impl<H> View for CacheEntry<H> {
    type V = (Seq<char>, H);

    closed spec fn view(&self) -> (Seq<char>, H) {
        (self.text@, self.handle)
    }
}

/// The mathematical value of a [`StatementCache`].
pub struct CacheView<H> {
    /// The number of handles that the cache holds at most.
    pub capacity: nat,
    /// The cached texts with their handles, the least recently used first.
    pub ready: Seq<(Seq<char>, H)>,
    /// The texts that a caller is preparing.
    pub in_flight: Seq<Seq<char>>,
}

/// The texts of the entries, in order.
pub open spec fn keys<H>(ready: Seq<(Seq<char>, H)>) -> Seq<Seq<char>> {
    ready.map_values(|entry: (Seq<char>, H)| entry.0)
}

impl<H> CacheView<H> {
    /// What holds of every cache: it keeps within its capacity, no text is cached twice
    /// or prepared twice, and no cached text is being prepared.
    pub open spec fn wf(self) -> bool {
        &&& self.ready.len() <= self.capacity
        &&& keys(self.ready).no_duplicates()
        &&& self.in_flight.no_duplicates()
        &&& forall|i: int|
            0 <= i < self.in_flight.len() ==> !keys(self.ready).contains(
                #[trigger] self.in_flight[i],
            )
    }

    /// Whether the text's handle is cached.
    pub open spec fn is_ready(self, text: Seq<char>) -> bool {
        find_text(keys(self.ready), text) is Some
    }

    /// Whether a caller is preparing the text.
    pub open spec fn is_in_flight(self, text: Seq<char>) -> bool {
        find_text(self.in_flight, text) is Some
    }

    /// The cached handle of the text; meant for texts that are cached.
    pub open spec fn handle_of(self, text: Seq<char>) -> H {
        self.ready[find_text(keys(self.ready), text).unwrap()].1
    }

    /// The cache after a caller has asked for the text, and what the caller is told.
    /// A cached text becomes the most recently used; a text that nobody has becomes one
    /// that is being prepared.
    pub open spec fn begin(self, text: Seq<char>) -> (CacheView<H>, Lookup) {
        match find_text(keys(self.ready), text) {
            Some(i) => (
                CacheView { ready: self.ready.remove(i).push(self.ready[i]), ..self },
                Lookup::Hit,
            ),
            None => if self.is_in_flight(text) {
                (self, Lookup::Wait)
            } else {
                (CacheView { in_flight: self.in_flight.push(text), ..self }, Lookup::Prepare)
            },
        }
    }

    /// The entries without the one of the given text.
    pub open spec fn ready_without(self, text: Seq<char>) -> Seq<(Seq<char>, H)> {
        match find_text(keys(self.ready), text) {
            Some(i) => self.ready.remove(i),
            None => self.ready,
        }
    }

    /// The cache after the text has been prepared: the handle is cached as the most
    /// recently used, the least recently used entry leaves where the cache would
    /// otherwise exceed its capacity, and the text is no longer being prepared.
    pub open spec fn complete(self, text: Seq<char>, handle: H) -> CacheView<H> {
        let entries = self.ready_without(text).push((text, handle));
        CacheView {
            ready: if entries.len() > self.capacity {
                entries.drop_first()
            } else {
                entries
            },
            in_flight: without_text(self.in_flight, text),
            ..self
        }
    }

    /// The cache after preparing the text was given up: the text is no longer being
    /// prepared, and nothing else has changed.
    pub open spec fn abandon(self, text: Seq<char>) -> CacheView<H> {
        CacheView { in_flight: without_text(self.in_flight, text), ..self }
    }
}

/// A bounded cache of prepared-statement handles, keyed by query text.
#[derive(Debug)]
pub struct StatementCache<H> {
    capacity: usize,
    ready: Vec<CacheEntry<H>>,
    in_flight: Vec<String>,
}

/// The views of the entries, in order.
pub open spec fn entries_view<H>(entries: Seq<CacheEntry<H>>) -> Seq<(Seq<char>, H)> {
    entries.map_values(|entry: CacheEntry<H>| entry@)
}

impl<H> View for StatementCache<H> {
    type V = CacheView<H>;

    closed spec fn view(&self) -> CacheView<H> {
        CacheView {
            capacity: self.capacity as nat,
            ready: entries_view(self.ready@),
            in_flight: texts_view(self.in_flight@),
        }
    }
}

fn position_of_text(texts: &Vec<String>, text: &str) -> (found: Option<usize>)
    ensures
        match found {
            Some(i) => find_text(texts_view(texts@), text@) == Some(i as int) && i < texts.len(),
            None => find_text(texts_view(texts@), text@) is None,
        },
{
    let ghost views = texts_view(texts@);
    let mut i: usize = 0;
    while i < texts.len()
        invariant
            i <= texts.len(),
            views == texts_view(texts@),
            forall|j: int| 0 <= j < i ==> #[trigger] views[j] != text@,
        decreases texts.len() - i,
    {
        assert(views[i as int] == texts[i as int]@);
        if same_text(texts[i].as_str(), text) {
            proof {
                lemma_find_text(views, text@);
            }
            return Some(i);
        }
        i += 1;
    }
    proof {
        lemma_find_text(views, text@);
    }
    None
}

impl<H> StatementCache<H> {
    /// An empty cache that holds `capacity` handles at most.
    pub fn new(capacity: usize) -> (cache: StatementCache<H>)
        ensures
            cache@ == (CacheView::<H> {
                capacity: capacity as nat,
                ready: Seq::empty(),
                in_flight: Seq::empty(),
            }),
            cache@.wf(),
    {
        let cache = StatementCache { capacity, ready: Vec::new(), in_flight: Vec::new() };
        assert(cache@.ready =~= Seq::<(Seq<char>, H)>::empty());
        assert(cache@.in_flight =~= Seq::<Seq<char>>::empty());
        assert(keys(cache@.ready) =~= Seq::<Seq<char>>::empty());
        cache
    }

    /// The number of handles that the cache holds at most.
    pub fn capacity(&self) -> (capacity: usize)
        ensures
            capacity == self@.capacity,
    {
        self.capacity
    }

    /// The number of cached handles.
    pub fn len(&self) -> (len: usize)
        ensures
            len == self@.ready.len(),
    {
        self.ready.len()
    }

    fn position(&self, text: &str) -> (found: Option<usize>)
        ensures
            match found {
                Some(i) => find_text(keys(self@.ready), text@) == Some(i as int) && i
                    < self.ready.len(),
                None => find_text(keys(self@.ready), text@) is None,
            },
    {
        let ghost names = keys(self@.ready);
        let mut i: usize = 0;
        while i < self.ready.len()
            invariant
                i <= self.ready.len(),
                names == keys(self@.ready),
                forall|j: int| 0 <= j < i ==> #[trigger] names[j] != text@,
            decreases self.ready.len() - i,
        {
            assert(names[i as int] == self.ready[i as int]@.0);
            if same_text(self.ready[i].text.as_str(), text) {
                proof {
                    lemma_find_text(names, text@);
                }
                return Some(i);
            }
            i += 1;
        }
        proof {
            lemma_find_text(names, text@);
        }
        None
    }

    /// The cached handle of a text, if it is cached. Looking does not count as use.
    pub fn handle(&self, text: &str) -> (handle: Option<&H>)
        ensures
            match handle {
                Some(found) => self@.is_ready(text@) && *found == self@.handle_of(text@),
                None => !self@.is_ready(text@),
            },
    {
        match self.position(text) {
            Some(i) => {
                assert(self@.ready[i as int] == self.ready[i as int]@);
                Some(&self.ready[i].handle)
            },
            None => None,
        }
    }

    /// Asks for the handle of a text, and says what the caller is to do.
    pub fn begin(&mut self, text: &str) -> (told: Lookup)
        ensures
            (final(self)@, told) == old(self)@.begin(text@),
            old(self)@.wf() ==> final(self)@.wf(),
    {
        proof {
            if self@.wf() {
                lemma_begin_keeps_wf(self@, text@);
            }
        }
        match self.position(text) {
            Some(i) => {
                let ghost before = self@.ready;
                assert(before[i as int] == self.ready[i as int]@);
                let entry = self.ready.remove(i);
                assert(entries_view(self.ready@) =~= before.remove(i as int));
                let ghost removed = entries_view(self.ready@);
                self.ready.push(entry);
                assert(entries_view(self.ready@) =~= removed.push(entry@));
                Lookup::Hit
            },
            None => {
                match position_of_text(&self.in_flight, text) {
                    Some(_) => Lookup::Wait,
                    None => {
                        let ghost before = self@.in_flight;
                        let owned = text.to_owned();
                        self.in_flight.push(owned);
                        assert(texts_view(self.in_flight@) =~= before.push(text@));
                        Lookup::Prepare
                    },
                }
            },
        }
    }

    fn forget_in_flight(&mut self, text: &str)
        ensures
            final(self)@ == old(self)@.abandon(text@),
    {
        match position_of_text(&self.in_flight, text) {
            Some(i) => {
                let ghost before = self@.in_flight;
                self.in_flight.remove(i);
                assert(texts_view(self.in_flight@) =~= before.remove(i as int));
            },
            None => {},
        }
    }

    /// Reports that the text has been prepared, and caches its handle.
    pub fn complete(&mut self, text: &str, handle: H)
        ensures
            final(self)@ == old(self)@.complete(text@, handle),
            old(self)@.wf() ==> final(self)@.wf(),
    {
        proof {
            if self@.wf() {
                lemma_complete_keeps_wf(self@, text@, handle);
            }
        }
        self.forget_in_flight(text);
        match self.position(text) {
            Some(i) => {
                let ghost before = self@.ready;
                self.ready.remove(i);
                assert(entries_view(self.ready@) =~= before.remove(i as int));
            },
            None => {},
        }
        let ghost kept = self@.ready;
        let entry = CacheEntry { text: text.to_owned(), handle };
        self.ready.push(entry);
        assert(entries_view(self.ready@) =~= kept.push((text@, handle)));
        if self.ready.len() > self.capacity {
            let ghost full = self@.ready;
            self.ready.remove(0);
            assert(entries_view(self.ready@) =~= full.drop_first());
        }
    }

    /// Reports that preparing the text was given up, because it failed or because the
    /// caller went away. The next caller who asks for the text is told to prepare it.
    pub fn abandon(&mut self, text: &str)
        ensures
            final(self)@ == old(self)@.abandon(text@),
            old(self)@.wf() ==> final(self)@.wf(),
    {
        proof {
            if self@.wf() {
                lemma_abandon_keeps_wf(self@, text@);
            }
        }
        self.forget_in_flight(text);
    }
}

/// Moving the entry at `i` to the back leaves the same texts cached.
pub proof fn lemma_touch_keeps_keys<H>(ready: Seq<(Seq<char>, H)>, i: int)
    requires
        0 <= i < ready.len(),
    ensures
        forall|text: Seq<char>|
            keys(ready.remove(i).push(ready[i])).contains(text) <==> #[trigger] keys(
                ready,
            ).contains(text),
        keys(ready).no_duplicates() ==> keys(ready.remove(i).push(ready[i])).no_duplicates(),
{
    let moved = ready.remove(i).push(ready[i]);
    let origin = |a: int|
        if a == moved.len() - 1 {
            i
        } else if a < i {
            a
        } else {
            a + 1
        };
    assert forall|a: int| 0 <= a < moved.len() implies #[trigger] keys(moved)[a] == keys(
        ready,
    )[origin(a)] by {
        assert(moved[a] == ready[origin(a)]);
    }
    assert forall|text: Seq<char>|
        keys(moved).contains(text) <==> #[trigger] keys(ready).contains(text) by {
        if keys(moved).contains(text) {
            let a = choose|a: int| 0 <= a < keys(moved).len() && keys(moved)[a] == text;
            assert(keys(ready)[origin(a)] == text);
        }
        if keys(ready).contains(text) {
            let b = choose|b: int| 0 <= b < keys(ready).len() && keys(ready)[b] == text;
            let a = if b == i {
                moved.len() - 1
            } else if b < i {
                b
            } else {
                b - 1
            };
            assert(origin(a) == b);
            assert(keys(moved)[a] == text);
        }
    }
    if keys(ready).no_duplicates() {
        assert forall|a: int, b: int|
            0 <= a < keys(moved).len() && 0 <= b < keys(moved).len() && a != b implies keys(
            moved,
        )[a] != keys(moved)[b] by {
            assert(origin(a) != origin(b));
            assert(keys(moved)[a] == keys(ready)[origin(a)]);
            assert(keys(moved)[b] == keys(ready)[origin(b)]);
        }
    }
}

/// Asking for a handle keeps the cache well formed.
pub proof fn lemma_begin_keeps_wf<H>(cache: CacheView<H>, text: Seq<char>)
    requires
        cache.wf(),
    ensures
        cache.begin(text).0.wf(),
{
    lemma_find_text(keys(cache.ready), text);
    lemma_find_text(cache.in_flight, text);
    let after = cache.begin(text).0;
    match find_text(keys(cache.ready), text) {
        Some(i) => {
            lemma_touch_keeps_keys(cache.ready, i);
            assert forall|k: int| 0 <= k < after.in_flight.len() implies !keys(
                after.ready,
            ).contains(#[trigger] after.in_flight[k]) by {
                assert(!keys(cache.ready).contains(cache.in_flight[k]));
            }
        },
        None => {
            if !cache.is_in_flight(text) {
                assert forall|k: int| 0 <= k < after.in_flight.len() implies !keys(
                    after.ready,
                ).contains(#[trigger] after.in_flight[k]) by {
                    if k < cache.in_flight.len() {
                        assert(after.in_flight[k] == cache.in_flight[k]);
                    }
                }
            }
        },
    }
}

/// What the entries without a text hold: of entries that hold no text twice, every text
/// but that one, and none twice.
pub proof fn lemma_ready_without<H>(cache: CacheView<H>, text: Seq<char>)
    requires
        keys(cache.ready).no_duplicates(),
    ensures
        keys(cache.ready_without(text)) == without_text(keys(cache.ready), text),
        cache.ready_without(text).len() <= cache.ready.len(),
{
    lemma_find_text(keys(cache.ready), text);
    if let Some(i) = find_text(keys(cache.ready), text) {
        assert(keys(cache.ready.remove(i)) =~= keys(cache.ready).remove(i));
    }
}

/// Caching a prepared handle keeps the cache well formed.
pub proof fn lemma_complete_keeps_wf<H>(cache: CacheView<H>, text: Seq<char>, handle: H)
    requires
        cache.wf(),
    ensures
        cache.complete(text, handle).wf(),
{
    let after = cache.complete(text, handle);
    let kept = cache.ready_without(text);
    let entries = kept.push((text, handle));
    lemma_ready_without(cache, text);
    crate::text::lemma_without_text(keys(cache.ready), text);
    crate::text::lemma_without_text(cache.in_flight, text);
    assert(keys(entries) =~= keys(kept).push(text));
    assert(keys(entries).no_duplicates()) by {
        assert forall|a: int, b: int|
            0 <= a < keys(entries).len() && 0 <= b < keys(entries).len() && a
                != b implies keys(entries)[a] != keys(entries)[b] by {
            if a < kept.len() {
                assert(keys(kept).contains(keys(kept)[a]));
            }
            if b < kept.len() {
                assert(keys(kept).contains(keys(kept)[b]));
            }
        }
    }
    assert forall|other: Seq<char>| #[trigger]
        keys(after.ready).contains(other) implies other == text || keys(cache.ready).contains(
        other,
    ) by {
        let a = choose|a: int| 0 <= a < keys(after.ready).len() && keys(after.ready)[a] == other;
        let a0 = if entries.len() > cache.capacity {
            a + 1
        } else {
            a
        };
        assert(keys(after.ready)[a] == keys(entries)[a0]);
        if a0 < kept.len() {
            assert(keys(kept).contains(other));
        }
    }
    if entries.len() > cache.capacity {
        assert(keys(entries.drop_first()) =~= keys(entries).drop_first());
        assert forall|a: int, b: int|
            0 <= a < keys(after.ready).len() && 0 <= b < keys(after.ready).len() && a
                != b implies keys(after.ready)[a] != keys(after.ready)[b] by {
            assert(keys(after.ready)[a] == keys(entries)[a + 1]);
            assert(keys(after.ready)[b] == keys(entries)[b + 1]);
        }
    }
    assert forall|k: int| 0 <= k < after.in_flight.len() implies !keys(after.ready).contains(
        #[trigger] after.in_flight[k],
    ) by {
        let other = after.in_flight[k];
        assert(after.in_flight.contains(other));
        assert(other != text);
        assert(cache.in_flight.contains(other));
        let k0 = choose|k0: int| 0 <= k0 < cache.in_flight.len() && cache.in_flight[k0] == other;
        assert(!keys(cache.ready).contains(cache.in_flight[k0]));
    }
}

/// Giving up a preparation keeps the cache well formed.
pub proof fn lemma_abandon_keeps_wf<H>(cache: CacheView<H>, text: Seq<char>)
    requires
        cache.wf(),
    ensures
        cache.abandon(text).wf(),
{
    let after = cache.abandon(text);
    crate::text::lemma_without_text(cache.in_flight, text);
    assert forall|k: int| 0 <= k < after.in_flight.len() implies !keys(after.ready).contains(
        #[trigger] after.in_flight[k],
    ) by {
        let other = after.in_flight[k];
        assert(after.in_flight.contains(other));
        assert(cache.in_flight.contains(other));
        let k0 = choose|k0: int| 0 <= k0 < cache.in_flight.len() && cache.in_flight[k0] == other;
        assert(!keys(cache.ready).contains(cache.in_flight[k0]));
    }
}

/// When a full cache takes in the handle of a text that it did not hold, the entry that
/// leaves is the least recently used one, and the new entry is the most recently used.
pub proof fn lemma_least_recently_used_leaves<H>(
    cache: CacheView<H>,
    text: Seq<char>,
    handle: H,
)
    requires
        cache.wf(),
        !cache.is_ready(text),
        cache.ready.len() == cache.capacity,
        cache.capacity > 0,
    ensures
        cache.complete(text, handle).ready == cache.ready.drop_first().push((text, handle)),
{
    assert(cache.ready.push((text, handle)).drop_first() =~= cache.ready.drop_first().push(
        (text, handle),
    ));
}

/// A text whose handle was cached is found with that handle, by whoever asks next: one
/// text has one prepared statement.
pub proof fn lemma_completed_is_shared<H>(cache: CacheView<H>, text: Seq<char>, handle: H)
    requires
        cache.wf(),
        cache.capacity > 0,
    ensures
        cache.complete(text, handle).is_ready(text),
        cache.complete(text, handle).handle_of(text) == handle,
        cache.complete(text, handle).begin(text).1 == Lookup::Hit,
{
    let after = cache.complete(text, handle);
    let kept = cache.ready_without(text);
    let entries = kept.push((text, handle));
    lemma_complete_keeps_wf(cache, text, handle);
    lemma_ready_without(cache, text);
    let last = after.ready.len() - 1;
    assert(after.ready[last] == (text, handle));
    assert(keys(after.ready)[last] == text);
    lemma_find_text(keys(after.ready), text);
    let found = find_text(keys(after.ready), text);
    assert(found is Some);
    if found->0 != last {
        assert(keys(after.ready)[found->0] == keys(after.ready)[last]);
    }
}

/// An operation on a cache, as callers perform them one after another.
pub enum CacheOp<H> {
    /// A caller asks for the handle of a text.
    Begin(Seq<char>),
    /// A caller reports that a text has been prepared.
    Complete(Seq<char>, H),
    /// A caller reports that preparing a text was given up.
    Abandon(Seq<char>),
}

impl<H> CacheOp<H> {
    /// Whether the operation reports how preparing `text` ended.
    pub open spec fn reports_on(self, text: Seq<char>) -> bool {
        match self {
            CacheOp::Begin(_) => false,
            CacheOp::Complete(what, _) => what == text,
            CacheOp::Abandon(what) => what == text,
        }
    }

    /// Whether the operation asks for the handle of `text`.
    pub open spec fn asks_for(self, text: Seq<char>) -> bool {
        match self {
            CacheOp::Begin(what) => what == text,
            _ => false,
        }
    }
}

impl<H> CacheView<H> {
    /// The cache after an operation.
    pub open spec fn after(self, op: CacheOp<H>) -> CacheView<H> {
        match op {
            CacheOp::Begin(text) => self.begin(text).0,
            CacheOp::Complete(text, handle) => self.complete(text, handle),
            CacheOp::Abandon(text) => self.abandon(text),
        }
    }

    /// Whether the operation, performed on this cache, tells its caller to prepare `text`.
    pub open spec fn tells_to_prepare(self, op: CacheOp<H>, text: Seq<char>) -> bool {
        op.asks_for(text) && self.begin(text).1 == Lookup::Prepare
    }

    /// How many of the operations, performed one after another from this cache on, tell
    /// their caller to prepare `text`.
    pub open spec fn prepares(self, ops: Seq<CacheOp<H>>, text: Seq<char>) -> nat
        decreases ops.len(),
    {
        if ops.len() == 0 {
            0
        } else {
            let first: nat = if self.tells_to_prepare(ops[0], text) {
                1
            } else {
                0
            };
            first + self.after(ops[0]).prepares(ops.drop_first(), text)
        }
    }
}

/// An operation that does not report on a text leaves it uncached if it was uncached,
/// and leaves it in preparation if it was; and only asking for the text puts it in
/// preparation.
pub proof fn lemma_others_leave_alone<H>(cache: CacheView<H>, op: CacheOp<H>, text: Seq<char>)
    requires
        !cache.is_ready(text),
        !op.reports_on(text),
    ensures
        !cache.after(op).is_ready(text),
        cache.is_in_flight(text) ==> cache.after(op).is_in_flight(text),
        !cache.is_in_flight(text) && !op.asks_for(text) ==> !cache.after(op).is_in_flight(text),
        !cache.is_in_flight(text) && op.asks_for(text) ==> cache.after(op).is_in_flight(text),
{
    let after = cache.after(op);
    crate::text::lemma_found_iff_contains(keys(cache.ready), text);
    crate::text::lemma_found_iff_contains(keys(after.ready), text);
    crate::text::lemma_found_iff_contains(cache.in_flight, text);
    crate::text::lemma_found_iff_contains(after.in_flight, text);
    match op {
        CacheOp::Begin(what) => {
            lemma_find_text(keys(cache.ready), what);
            lemma_find_text(cache.in_flight, what);
            match find_text(keys(cache.ready), what) {
                Some(i) => {
                    lemma_touch_keeps_keys(cache.ready, i);
                },
                None => {
                    if !cache.is_in_flight(what) {
                        let pushed = cache.in_flight.push(what);
                        if cache.in_flight.contains(text) {
                            let k = choose|k: int|
                                0 <= k < cache.in_flight.len() && cache.in_flight[k] == text;
                            assert(pushed[k] == text);
                        }
                        if pushed.contains(text) && what != text {
                            let k = choose|k: int| 0 <= k < pushed.len() && pushed[k] == text;
                            assert(cache.in_flight[k] == text);
                        }
                        if what == text {
                            assert(pushed[pushed.len() - 1] == text);
                        }
                    }
                },
            }
        },
        CacheOp::Complete(what, handle) => {
            crate::text::lemma_without_text_keeps(cache.in_flight, what, text);
            let kept = cache.ready_without(what);
            let entries = kept.push((what, handle));
            lemma_find_text(keys(cache.ready), what);
            if keys(after.ready).contains(text) {
                let a = choose|a: int| 0 <= a < keys(after.ready).len() && keys(after.ready)[a]
                    == text;
                let a0 = if entries.len() > cache.capacity {
                    a + 1
                } else {
                    a
                };
                assert(keys(after.ready)[a] == entries[a0].0);
                assert(a0 < kept.len());
                match find_text(keys(cache.ready), what) {
                    Some(i) => {
                        let a1 = if a0 < i {
                            a0
                        } else {
                            a0 + 1
                        };
                        assert(kept[a0] == cache.ready[a1]);
                        assert(keys(cache.ready)[a1] == text);
                    },
                    None => {
                        assert(keys(cache.ready)[a0] == text);
                    },
                }
            }
        },
        CacheOp::Abandon(what) => {
            crate::text::lemma_without_text_keeps(cache.in_flight, what, text);
        },
    }
}

/// While a text is being prepared and nobody reports on it, nobody else is told to
/// prepare it.
pub proof fn lemma_no_second_prepare<H>(cache: CacheView<H>, ops: Seq<CacheOp<H>>, text: Seq<char>)
    requires
        !cache.is_ready(text),
        cache.is_in_flight(text),
        forall|i: int| 0 <= i < ops.len() ==> !(#[trigger] ops[i]).reports_on(text),
    ensures
        cache.prepares(ops, text) == 0,
    decreases ops.len(),
{
    if ops.len() > 0 {
        lemma_others_leave_alone(cache, ops[0], text);
        assert forall|i: int| 0 <= i < ops.drop_first().len() implies !(
        #[trigger] ops.drop_first()[i]).reports_on(text) by {
            assert(ops.drop_first()[i] == ops[i + 1]);
        }
        lemma_no_second_prepare(cache.after(ops[0]), ops.drop_first(), text);
    }
}

/// However many callers ask for a text that the cache does not know, and whatever else
/// happens to the cache meanwhile: as long as nobody reports how preparing the text
/// ended, exactly one caller is told to prepare it.
pub proof fn lemma_single_flight<H>(cache: CacheView<H>, ops: Seq<CacheOp<H>>, text: Seq<char>)
    requires
        !cache.is_ready(text),
        !cache.is_in_flight(text),
        forall|i: int| 0 <= i < ops.len() ==> !(#[trigger] ops[i]).reports_on(text),
    ensures
        cache.prepares(ops, text) == if exists|i: int|
            0 <= i < ops.len() && (#[trigger] ops[i]).asks_for(text) {
            1nat
        } else {
            0nat
        },
    decreases ops.len(),
{
    if ops.len() > 0 {
        let rest = ops.drop_first();
        lemma_others_leave_alone(cache, ops[0], text);
        assert forall|i: int| 0 <= i < rest.len() implies !(#[trigger] rest[i]).reports_on(
            text,
        ) by {
            assert(rest[i] == ops[i + 1]);
        }
        if ops[0].asks_for(text) {
            lemma_no_second_prepare(cache.after(ops[0]), rest, text);
        } else {
            lemma_single_flight(cache.after(ops[0]), rest, text);
            if exists|i: int| 0 <= i < rest.len() && (#[trigger] rest[i]).asks_for(text) {
                let i = choose|i: int| 0 <= i < rest.len() && (#[trigger] rest[i]).asks_for(text);
                assert(ops[i + 1].asks_for(text));
            }
            if exists|i: int| 0 <= i < ops.len() && (#[trigger] ops[i]).asks_for(text) {
                let i = choose|i: int| 0 <= i < ops.len() && (#[trigger] ops[i]).asks_for(text);
                assert(rest[i - 1].asks_for(text));
            }
        }
    }
}

} // verus!
