//! The parse cache: parsed files kept by path, size and encoding, up to a cap on
//! their bytes, the least recently used leaving first.

use std::sync::Arc;

use vstd::prelude::*;

use crate::ags::ParsedAgs4;
use crate::text::{a_number_reads_back, decimal, parse_unsigned, same, trim, trimmed, unsigned_value};

verus! {

/// The cap where none is set: 256 MiB.
pub const DEFAULT_CAP_BYTES: usize = 268_435_456;

/// What a parsed file is kept by: its path, its size in bytes (the change
/// detector), and the encoding that it was read in.
pub struct Key {
    pub path: String,
    pub size: u64,
    pub encoding: String,
}

/// What a key stands for.
#[verifier::ext_equal]
pub struct KeyView {
    pub path: Seq<char>,
    pub size: u64,
    pub encoding: Seq<char>,
}

impl View for Key {
    type V = KeyView;

    open spec fn view(&self) -> KeyView {
        KeyView { path: self.path@, size: self.size, encoding: self.encoding@ }
    }
}

/// A kept file. Its cost against the cap is the size in its key.
pub struct Entry {
    pub key: Key,
    pub parsed: Arc<ParsedAgs4>,
}

/// The file behind a shared handle.
pub open spec fn held(parsed: &Arc<ParsedAgs4>) -> ParsedAgs4 {
    **parsed
}

/// What is kept, least recently used first: each key with its file.
pub type Kept = Seq<(KeyView, ParsedAgs4)>;

/// The bytes that the kept files are charged.
pub open spec fn total_cost(kept: Kept) -> nat
    decreases kept.len(),
{
    if kept.len() == 0 {
        0
    } else {
        total_cost(kept.drop_last()) + kept.last().0.size as nat
    }
}

/// The file kept under a key.
pub open spec fn kept_under(kept: Kept, key: KeyView) -> Option<ParsedAgs4>
    decreases kept.len(),
{
    if kept.len() == 0 {
        None
    } else if kept.last().0 == key {
        Some(kept.last().1)
    } else {
        kept_under(kept.drop_last(), key)
    }
}

/// Whether no key is kept twice.
pub open spec fn keys_differ(kept: Kept) -> bool {
    forall|i: int, j: int|
        0 <= i < j < kept.len() ==> (#[trigger] kept[i]).0 != (#[trigger] kept[j]).0
}

/// What is kept, without what is kept under `key`.
pub open spec fn without(kept: Kept, key: KeyView) -> Kept
    decreases kept.len(),
{
    if kept.len() == 0 {
        kept
    } else if kept.last().0 == key {
        without(kept.drop_last(), key)
    } else {
        without(kept.drop_last(), key).push(kept.last())
    }
}

/// What is left when the least recently used go until the rest is under the cap.
/// The last one stays, however large.
pub open spec fn capped(kept: Kept, cap: nat) -> Kept
    decreases kept.len(),
{
    if total_cost(kept) > cap && kept.len() > 1 {
        capped(kept.drop_first(), cap)
    } else {
        kept
    }
}

/// What is kept when `parsed` was the last to be used, under `key`.
pub open spec fn used(kept: Kept, key: KeyView, parsed: ParsedAgs4) -> Kept {
    without(kept, key).push((key, parsed))
}

/// What is kept when `parsed` has been taken in under `key`.
pub open spec fn taken_in(kept: Kept, key: KeyView, parsed: ParsedAgs4, cap: nat) -> Kept {
    capped(used(kept, key, parsed), cap)
}

/// The cache. Its entries stand in the order of their last use.
pub struct Cache {
    entries: Vec<Entry>,
    total: u128,
    cap: usize,
}

impl Cache {
    /// What is kept, least recently used first.
    pub closed spec fn kept(&self) -> Kept {
        Seq::new(
            self.entries@.len(),
            |i: int| (self.entries@[i].key@, *self.entries@[i].parsed),
        )
    }

    /// The cap on the bytes kept. None are kept where it is 0.
    pub closed spec fn cap(&self) -> usize {
        self.cap
    }

    /// The running total is what the kept files cost, no key is kept twice, and
    /// the files are within the cap, but for a single one that is larger.
    pub closed spec fn wf(&self) -> bool {
        &&& self.total == total_cost(self.kept())
        &&& keys_differ(self.kept())
        &&& within_cap(self.kept(), self.cap as nat)
    }
}

/// Whether what is kept is within the cap, or a single file.
pub open spec fn within_cap(kept: Kept, cap: nat) -> bool {
    total_cost(kept) <= cap || kept.len() <= 1
}

proof fn lemma_cost_without_first(kept: Kept)
    requires
        kept.len() > 0,
    ensures
        total_cost(kept) == total_cost(kept.drop_first()) + kept[0].0.size,
    decreases kept.len(),
{
    let rest = kept.drop_first();
    if kept.len() == 1 {
        assert(kept.drop_last() =~= Seq::empty());
        assert(rest =~= Seq::empty());
    } else {
        lemma_cost_without_first(kept.drop_last());
        assert(rest.drop_last() =~= kept.drop_last().drop_first());
        assert(rest.last() == kept.last());
    }
}

proof fn lemma_cost_bound(kept: Kept)
    ensures
        total_cost(kept) <= kept.len() * u64::MAX,
    decreases kept.len(),
{
    if kept.len() > 0 {
        lemma_cost_bound(kept.drop_last());
        assert((kept.len() - 1) * u64::MAX + u64::MAX == kept.len() * u64::MAX) by (nonlinear_arith);
    }
}

proof fn lemma_cost_remove(kept: Kept, i: int)
    requires
        0 <= i < kept.len(),
    ensures
        total_cost(kept) == total_cost(kept.remove(i)) + kept[i].0.size,
    decreases kept.len(),
{
    if i == kept.len() - 1 {
        assert(kept.remove(i) =~= kept.drop_last());
    } else {
        lemma_cost_remove(kept.drop_last(), i);
        assert(kept.remove(i).drop_last() =~= kept.drop_last().remove(i));
        assert(kept.remove(i).last() == kept.last());
    }
}

proof fn lemma_absent(kept: Kept, key: KeyView)
    requires
        forall|i: int| 0 <= i < kept.len() ==> (#[trigger] kept[i]).0 != key,
    ensures
        kept_under(kept, key) is None,
        without(kept, key) == kept,
    decreases kept.len(),
{
    if kept.len() > 0 {
        assert(kept.last() == kept[kept.len() - 1]);
        assert forall|i: int| 0 <= i < kept.drop_last().len() implies (
        #[trigger] kept.drop_last()[i]).0 != key by {
            assert(kept[i].0 != key);
        }
        lemma_absent(kept.drop_last(), key);
        assert(kept.drop_last().push(kept.last()) =~= kept);
    }
}

proof fn lemma_present(kept: Kept, key: KeyView, i: int)
    requires
        keys_differ(kept),
        0 <= i < kept.len(),
        kept[i].0 == key,
    ensures
        kept_under(kept, key) == Some(kept[i].1),
        without(kept, key) == kept.remove(i),
    decreases kept.len(),
{
    let rest = kept.drop_last();
    assert(kept.last() == kept[kept.len() - 1]);
    if i == kept.len() - 1 {
        assert forall|j: int| 0 <= j < rest.len() implies (#[trigger] rest[j]).0 != key by {
            assert(kept[j].0 != kept[i].0);
        }
        lemma_absent(rest, key);
        assert(kept.remove(i) =~= rest);
    } else {
        assert(kept[i].0 != kept[kept.len() - 1].0);
        assert forall|a: int, b: int| 0 <= a < b < rest.len() implies (#[trigger] rest[a]).0 != (
        #[trigger] rest[b]).0 by {
            assert(kept[a].0 != kept[b].0);
        }
        lemma_present(rest, key, i);
        assert(kept.remove(i) =~= rest.remove(i).push(kept.last()));
    }
}

proof fn lemma_without(kept: Kept, key: KeyView)
    requires
        keys_differ(kept),
    ensures
        keys_differ(without(kept, key)),
        forall|i: int| 0 <= i < without(kept, key).len() ==> (#[trigger] without(kept, key)[i]).0
            != key,
        without(kept, key).len() <= kept.len(),
        total_cost(without(kept, key)) <= total_cost(kept),
{
    if exists|i: int| 0 <= i < kept.len() && (#[trigger] kept[i]).0 == key {
        let i = choose|i: int| 0 <= i < kept.len() && (#[trigger] kept[i]).0 == key;
        lemma_present(kept, key, i);
        lemma_cost_remove(kept, i);
        let less = kept.remove(i);
        assert forall|j: int| 0 <= j < less.len() implies (#[trigger] less[j]).0 != key by {
            if j < i {
                assert(kept[j].0 != kept[i].0);
            } else {
                assert(kept[i].0 != kept[j + 1].0);
            }
        }
        assert forall|a: int, b: int| 0 <= a < b < less.len() implies (#[trigger] less[a]).0 != (
        #[trigger] less[b]).0 by {
            let x = if a < i { a } else { a + 1 };
            let y = if b < i { b } else { b + 1 };
            assert(kept[x].0 != kept[y].0);
        }
    } else {
        lemma_absent(kept, key);
    }
}

proof fn lemma_used(kept: Kept, key: KeyView, parsed: ParsedAgs4)
    requires
        keys_differ(kept),
    ensures
        keys_differ(used(kept, key, parsed)),
        total_cost(used(kept, key, parsed)) == total_cost(without(kept, key)) + key.size,
{
    lemma_without(kept, key);
    assert(used(kept, key, parsed).drop_last() =~= without(kept, key));
}

proof fn lemma_capped(kept: Kept, cap: nat)
    requires
        keys_differ(kept),
    ensures
        keys_differ(capped(kept, cap)),
        within_cap(capped(kept, cap), cap),
    decreases kept.len(),
{
    if total_cost(kept) > cap && kept.len() > 1 {
        let rest = kept.drop_first();
        assert forall|a: int, b: int| 0 <= a < b < rest.len() implies (#[trigger] rest[a]).0 != (
        #[trigger] rest[b]).0 by {
            assert(kept[a + 1].0 != kept[b + 1].0);
        }
        lemma_capped(rest, cap);
    }
}

impl Cache {
    /// An empty cache with the given cap.
    pub fn new(cap: usize) -> (r: Cache)
        ensures
            r.wf(),
            r.kept() == Seq::<(KeyView, ParsedAgs4)>::empty(),
            r.cap() == cap,
    {
        let c = Cache { entries: Vec::new(), total: 0, cap };
        assert(c.kept() =~= Seq::empty());
        c
    }

    /// Whether the cache keeps anything: it does where its cap is not 0.
    pub fn is_enabled(&self) -> (r: bool)
        ensures
            r == (self.cap() != 0),
    {
        self.cap != 0
    }

    fn evict_to_cap(&mut self)
        requires
            old(self).total == total_cost(old(self).kept()),
            keys_differ(old(self).kept()),
        ensures
            final(self).wf(),
            final(self).kept() == capped(old(self).kept(), old(self).cap() as nat),
            final(self).cap() == old(self).cap(),
    {
        let ghost start = self.kept();
        let ghost cap = self.cap as nat;
        while self.total > self.cap as u128 && self.entries.len() > 1
            invariant
                self.total == total_cost(self.kept()),
                self.cap == cap,
                self.cap() == old(self).cap(),
                capped(self.kept(), cap) == capped(start, cap),
            decreases self.entries@.len(),
        {
            let ghost kept = self.kept();
            proof {
                lemma_cost_without_first(kept);
            }
            let gone = self.entries.remove(0);
            self.total = self.total - gone.key.size as u128;
            assert(self.kept() =~= kept.drop_first());
        }
        proof {
            lemma_capped(start, cap);
        }
    }

    /// The file kept under a key, which is then the last to have been used.
    pub fn lookup(&mut self, path: &str, size: u64, encoding: &str) -> (r: Option<Arc<ParsedAgs4>>)
        requires
            old(self).wf(),
        ensures
            final(self).wf(),
            final(self).cap() == old(self).cap(),
            ({
                let key = KeyView { path: path@, size, encoding: encoding@ };
                match r {
                    Some(p) => {
                        &&& kept_under(old(self).kept(), key) == Some(*p)
                        &&& final(self).kept() == used(old(self).kept(), key, *p)
                    },
                    None => {
                        &&& kept_under(old(self).kept(), key) is None
                        &&& final(self).kept() == old(self).kept()
                    },
                }
            }),
    {
        let ghost key = KeyView { path: path@, size, encoding: encoding@ };
        let ghost kept = self.kept();
        let mut i: usize = 0;
        while i < self.entries.len()
            invariant
                i <= self.entries@.len(),
                kept == self.kept(),
                *self == *old(self),
                key == (KeyView { path: path@, size, encoding: encoding@ }),
                forall|j: int| 0 <= j < i ==> (#[trigger] kept[j]).0 != key,
                old(self).wf(),
            decreases self.entries@.len() - i,
        {
            let hit = self.entries[i].key.size == size && same(
                self.entries[i].key.path.as_str(),
                path,
            ) && same(self.entries[i].key.encoding.as_str(), encoding);
            assert(kept[i as int].0 == self.entries@[i as int].key@);
            if hit {
                assert(kept[i as int].0 =~= key);
                proof {
                    lemma_present(kept, key, i as int);
                    lemma_cost_remove(kept, i as int);
                    lemma_used(kept, key, kept[i as int].1);
                }
                let entry = self.entries.remove(i);
                let parsed = Arc::clone(&entry.parsed);
                self.entries.push(entry);
                proof {
                    assert(self.kept() =~= used(kept, key, *parsed));
                }
                return Some(parsed);
            }
            i = i + 1;
        }
        proof {
            lemma_absent(kept, key);
        }
        None
    }

    /// Takes a parsed file in under a key, in place of what was kept under it;
    /// the least recently used go until the rest is under the cap.
    pub fn publish(&mut self, path: &str, size: u64, encoding: &str, parsed: &Arc<ParsedAgs4>)
        requires
            old(self).wf(),
        ensures
            final(self).wf(),
            final(self).cap() == old(self).cap(),
            final(self).kept() == taken_in(
                old(self).kept(),
                (KeyView { path: path@, size, encoding: encoding@ }),
                **parsed,
                old(self).cap() as nat,
            ),
    {
        let ghost key = KeyView { path: path@, size, encoding: encoding@ };
        let ghost kept = self.kept();
        let ghost value = held(parsed);
        let mut i: usize = 0;
        while i < self.entries.len() && !(self.entries[i].key.size == size && same(
            self.entries[i].key.path.as_str(),
            path,
        ) && same(self.entries[i].key.encoding.as_str(), encoding))
            invariant
                i <= self.entries@.len(),
                kept == self.kept(),
                *self == *old(self),
                key == (KeyView { path: path@, size, encoding: encoding@ }),
                forall|j: int| 0 <= j < i ==> (#[trigger] kept[j]).0 != key,
            decreases self.entries@.len() - i,
        {
            assert(kept[i as int].0 == self.entries@[i as int].key@);
            i = i + 1;
        }
        proof {
            lemma_cost_bound(kept);
            lemma_without(kept, key);
            lemma_used(kept, key, value);
        }
        if i < self.entries.len() {
            proof {
                assert(kept[i as int].0 =~= key);
                lemma_present(kept, key, i as int);
                lemma_cost_remove(kept, i as int);
            }
            let gone = self.entries.remove(i);
            self.total = self.total - gone.key.size as u128;
            assert(self.kept() =~= without(kept, key));
        } else {
            proof {
                lemma_absent(kept, key);
            }
        }
        proof {
            let n = self.entries@.len();
            lemma_cost_bound(self.kept());
            assert(n <= usize::MAX);
            assert(n * u64::MAX <= u64::MAX * u64::MAX) by (nonlinear_arith)
                requires
                    n <= u64::MAX,
            ;
            assert(u64::MAX * u64::MAX + u64::MAX <= u128::MAX) by (nonlinear_arith);
        }
        self.entries.push(
            Entry {
                key: Key { path: path.to_owned(), size, encoding: encoding.to_owned() },
                parsed: Arc::clone(parsed),
            },
        );
        self.total = self.total + size as u128;
        assert(self.kept() =~= used(kept, key, value));
        self.evict_to_cap();
    }
}

/// The parsed file for a key, built only where the cache does not keep it. What
/// fails to build is not kept. A cache whose cap is 0 keeps nothing and builds
/// every time.
pub fn get_or_try_insert<F>(
    cache: &mut Cache,
    path: &str,
    size: u64,
    encoding: &str,
    build: F,
) -> (r: Result<Arc<ParsedAgs4>, String>) where F: FnOnce() -> Result<ParsedAgs4, String>
    requires
        old(cache).wf(),
        build.requires(()),
    ensures
        final(cache).wf(),
        final(cache).cap() == old(cache).cap(),
        ({
            let key = KeyView { path: path@, size, encoding: encoding@ };
            let kept = old(cache).kept();
            let hit = kept_under(kept, key);
            if old(cache).cap() != 0 && hit is Some {
                &&& r is Ok
                &&& *r->Ok_0 == hit->Some_0
                &&& final(cache).kept() == used(kept, key, hit->Some_0)
            } else {
                match r {
                    Ok(p) => {
                        &&& build.ensures((), Ok(*p))
                        &&& final(cache).kept() == if old(cache).cap() == 0 {
                            kept
                        } else {
                            taken_in(kept, key, *p, old(cache).cap() as nat)
                        }
                    },
                    Err(e) => {
                        &&& build.ensures((), Err(e))
                        &&& final(cache).kept() == kept
                    },
                }
            }
        }),
{
    if !cache.is_enabled() {
        return match build() {
            Ok(p) => Ok(Arc::new(p)),
            Err(e) => Err(e),
        };
    }
    match cache.lookup(path, size, encoding) {
        Some(p) => Ok(p),
        None => match build() {
            Ok(p) => {
                let parsed = Arc::new(p);
                cache.publish(path, size, encoding, &parsed);
                Ok(parsed)
            },
            Err(e) => Err(e),
        },
    }
}

/// The cap that a setting asks for: the number of bytes that it writes, or the
/// default where there is no setting or it writes no number that fits.
pub open spec fn cap_of(setting: Option<Seq<char>>) -> int {
    match setting {
        Some(s) => match unsigned_value(trimmed(s)) {
            Some(n) => if n <= usize::MAX {
                n as int
            } else {
                DEFAULT_CAP_BYTES as int
            },
            None => DEFAULT_CAP_BYTES as int,
        },
        None => DEFAULT_CAP_BYTES as int,
    }
}

/// The cap that the setting in the environment asks for.
pub fn cap_from_env(setting: Option<&str>) -> (r: usize)
    ensures
        r == cap_of(
            match setting {
                Some(s) => Some(s@),
                None => None,
            },
        ),
{
    match setting {
        Some(s) => match parse_unsigned(trim(s)) {
            Some(n) => if n <= usize::MAX as u64 {
                n as usize
            } else {
                DEFAULT_CAP_BYTES
            },
            None => DEFAULT_CAP_BYTES,
        },
        None => DEFAULT_CAP_BYTES,
    }
}

/// What a cache keeps is within its cap, but for a single file that is larger, and
/// no key is kept twice.
pub proof fn the_cap_is_kept(cache: Cache)
    requires
        cache.wf(),
    ensures
        within_cap(cache.kept(), cache.cap() as nat),
        keys_differ(cache.kept()),
{
}

/// What eviction leaves is the most recently used, and it evicts no more than it
/// must: every longer run of them is over the cap.
pub proof fn eviction_drops_the_least_recently_used(kept: Kept, cap: nat)
    ensures
        exists|k: int|
            {
                &&& 0 <= k <= kept.len()
                &&& capped(kept, cap) == #[trigger] kept.skip(k)
                &&& forall|j: int| 0 <= j < k ==> total_cost(#[trigger] kept.skip(j)) > cap
            },
    decreases kept.len(),
{
    assert(kept.skip(0) =~= kept);
    if total_cost(kept) > cap && kept.len() > 1 {
        let rest = kept.drop_first();
        eviction_drops_the_least_recently_used(rest, cap);
        let k = choose|k: int|
            {
                &&& 0 <= k <= rest.len()
                &&& capped(rest, cap) == #[trigger] rest.skip(k)
                &&& forall|j: int| 0 <= j < k ==> total_cost(#[trigger] rest.skip(j)) > cap
            };
        assert(rest.skip(k) =~= kept.skip(k + 1));
        assert forall|j: int| 0 <= j < k + 1 implies total_cost(#[trigger] kept.skip(j)) > cap by {
            if j > 0 {
                assert(kept.skip(j) =~= rest.skip(j - 1));
            }
        }
    }
}

/// What was used last is never evicted, however large it is.
pub proof fn the_last_used_stays(kept: Kept, cap: nat)
    requires
        kept.len() > 0,
    ensures
        capped(kept, cap).len() > 0,
        capped(kept, cap).last() == kept.last(),
    decreases kept.len(),
{
    if total_cost(kept) > cap && kept.len() > 1 {
        the_last_used_stays(kept.drop_first(), cap);
    }
}

/// A file that was just taken in is found again under its key, so the next call
/// for that key does not build.
pub proof fn second_call_is_a_hit(kept: Kept, key: KeyView, parsed: ParsedAgs4, cap: nat)
    ensures
        kept_under(taken_in(kept, key, parsed, cap), key) == Some(parsed),
        kept_under(used(kept, key, parsed), key) == Some(parsed),
{
    the_last_used_stays(used(kept, key, parsed), cap);
}

proof fn lemma_kept_under_suffix(kept: Kept, key: KeyView)
    requires
        kept.len() > 0,
    ensures
        kept_under(kept.drop_first(), key) is Some ==> kept_under(kept.drop_first(), key)
            == kept_under(kept, key),
    decreases kept.len(),
{
    let rest = kept.drop_first();
    if rest.len() > 0 {
        assert(rest.last() == kept.last());
        assert(rest.drop_last() =~= kept.drop_last().drop_first());
        if kept.last().0 != key {
            lemma_kept_under_suffix(kept.drop_last(), key);
        }
    }
}

proof fn lemma_kept_under_capped(kept: Kept, key: KeyView, cap: nat)
    ensures
        kept_under(capped(kept, cap), key) is Some ==> kept_under(capped(kept, cap), key)
            == kept_under(kept, key),
    decreases kept.len(),
{
    if total_cost(kept) > cap && kept.len() > 1 {
        lemma_kept_under_suffix(kept, key);
        lemma_kept_under_capped(kept.drop_first(), key, cap);
    }
}

proof fn lemma_kept_under_without(kept: Kept, key: KeyView, other: KeyView)
    requires
        other != key,
    ensures
        kept_under(without(kept, key), other) == kept_under(kept, other),
    decreases kept.len(),
{
    if kept.len() > 0 {
        lemma_kept_under_without(kept.drop_last(), key, other);
        if kept.last().0 != key {
            let shorter = without(kept.drop_last(), key);
            assert(shorter.push(kept.last()).drop_last() =~= shorter);
        }
    }
}

/// A key answers for itself alone. Whatever is used or taken in under one key, a
/// lookup under another (the same path at another size, say) finds what it found
/// before, or, once that was evicted, nothing.
pub proof fn another_key_is_another_file(
    kept: Kept,
    key: KeyView,
    parsed: ParsedAgs4,
    cap: nat,
    other: KeyView,
)
    requires
        other != key,
    ensures
        kept_under(used(kept, key, parsed), other) == kept_under(kept, other),
        kept_under(taken_in(kept, key, parsed, cap), other) is Some ==> kept_under(
            taken_in(kept, key, parsed, cap),
            other,
        ) == kept_under(kept, other),
{
    lemma_kept_under_without(kept, key, other);
    let now = used(kept, key, parsed);
    assert(now.drop_last() =~= without(kept, key));
    lemma_kept_under_capped(now, other, cap);
}

/// What is kept under a key is the file that stands beside the key, and nothing is kept
/// under a key that is not there.
pub proof fn a_key_finds_its_own_file(kept: Kept, key: KeyView, i: int)
    requires
        keys_differ(kept),
    ensures
        0 <= i < kept.len() && kept[i].0 == key ==> kept_under(kept, key) == Some(kept[i].1),
        (forall|j: int| 0 <= j < kept.len() ==> (#[trigger] kept[j]).0 != key) ==> kept_under(
            kept,
            key,
        ) is None,
{
    if 0 <= i < kept.len() && kept[i].0 == key {
        lemma_present(kept, key, i);
    }
    if forall|j: int| 0 <= j < kept.len() ==> (#[trigger] kept[j]).0 != key {
        lemma_absent(kept, key);
    }
}

/// A file that is used becomes the last to have been used, and all others stay in the
/// order that they were in; the one that was kept under its key is no longer there.
pub proof fn use_makes_it_the_last(kept: Kept, key: KeyView, parsed: ParsedAgs4, i: int)
    requires
        keys_differ(kept),
    ensures
        used(kept, key, parsed).len() > 0,
        used(kept, key, parsed).last() == (key, parsed),
        0 <= i < kept.len() && kept[i].0 == key ==> used(kept, key, parsed).drop_last()
            == kept.remove(i),
        (forall|j: int| 0 <= j < kept.len() ==> (#[trigger] kept[j]).0 != key) ==> used(
            kept,
            key,
            parsed,
        ).drop_last() == kept,
        keys_differ(used(kept, key, parsed)),
{
    lemma_used(kept, key, parsed);
    assert(used(kept, key, parsed).drop_last() =~= without(kept, key));
    if 0 <= i < kept.len() && kept[i].0 == key {
        lemma_present(kept, key, i);
    }
    if forall|j: int| 0 <= j < kept.len() ==> (#[trigger] kept[j]).0 != key {
        lemma_absent(kept, key);
    }
}

/// The files that are kept cost their sizes, one added to the other.
pub proof fn a_file_costs_its_size(kept: Kept, key: KeyView, parsed: ParsedAgs4)
    ensures
        total_cost(Seq::<(KeyView, ParsedAgs4)>::empty()) == 0,
        total_cost(kept.push((key, parsed))) == total_cost(kept) + key.size,
{
    assert(kept.push((key, parsed)).drop_last() =~= kept);
}

/// What is taken in is kept within the cap, or alone; and where all of it is within the
/// cap nothing is evicted.
pub proof fn what_is_taken_in_is_within_the_cap(
    kept: Kept,
    key: KeyView,
    parsed: ParsedAgs4,
    cap: nat,
)
    requires
        keys_differ(kept),
    ensures
        ({
            let now = taken_in(kept, key, parsed, cap);
            &&& total_cost(now) <= cap || now.len() == 1
            &&& now.len() > 0
            &&& now.last() == (key, parsed)
        }),
        total_cost(used(kept, key, parsed)) <= cap ==> taken_in(kept, key, parsed, cap) == used(
            kept,
            key,
            parsed,
        ),
{
    lemma_used(kept, key, parsed);
    lemma_capped(used(kept, key, parsed), cap);
    the_last_used_stays(used(kept, key, parsed), cap);
}

/// A setting that writes a number is the cap, so far as the number fits; without one,
/// and with any text that writes none, the cap is 256 MiB.
pub proof fn a_number_sets_the_cap(n: nat, text: Seq<char>)
    ensures
        n <= usize::MAX ==> cap_of(Some(decimal(n))) == n,
        n > usize::MAX ==> cap_of(Some(decimal(n))) == 268_435_456,
        unsigned_value(trimmed(text)) is None ==> cap_of(Some(text)) == 268_435_456,
        trimmed(text) == decimal(n) ==> cap_of(Some(text)) == cap_of(Some(decimal(n))),
        cap_of(None) == 268_435_456,
{
    a_number_reads_back(n);
}

} // verus!
