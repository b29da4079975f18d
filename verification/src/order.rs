//! The order of texts, and lists of texts brought into it.

use vstd::prelude::*;

use crate::text::{chars_of, texts};

verus! {

/// Whether `a` comes before `b`: at the first character in which they differ
/// `a` has the smaller code point, or `a` ends where `b` goes on.
pub open spec fn before(a: Seq<char>, b: Seq<char>) -> bool
    decreases a.len(),
{
    if b.len() == 0 {
        false
    } else if a.len() == 0 {
        true
    } else if a[0] == b[0] {
        before(a.drop_first(), b.drop_first())
    } else {
        (a[0] as int) < (b[0] as int)
    }
}

/// Whether each text of a list comes before all that follow it.
pub open spec fn increasing(list: Seq<Seq<char>>) -> bool {
    forall|i: int, j: int| 0 <= i < j < list.len() ==> before(#[trigger] list[i], #[trigger] list[j])
}

/// Of two different texts one comes before the other.
pub proof fn lemma_before_total(a: Seq<char>, b: Seq<char>)
    ensures
        a == b || before(a, b) || before(b, a),
    decreases a.len(),
{
    if a.len() == 0 {
        if b.len() == 0 {
            assert(a =~= b);
        }
    } else if b.len() > 0 && a[0] == b[0] {
        lemma_before_total(a.drop_first(), b.drop_first());
        if a.drop_first() == b.drop_first() {
            assert(a =~= seq![a[0]] + a.drop_first());
            assert(b =~= seq![b[0]] + b.drop_first());
        }
    }
}

/// No two texts come each before the other, and none before itself.
pub proof fn lemma_before_one_way(a: Seq<char>, b: Seq<char>)
    requires
        before(a, b),
    ensures
        !before(b, a),
        a != b,
    decreases a.len(),
{
    if a.len() > 0 && a[0] == b[0] {
        lemma_before_one_way(a.drop_first(), b.drop_first());
    }
}

/// What comes before a text comes before all that the text comes before.
pub proof fn lemma_before_chains(a: Seq<char>, b: Seq<char>, c: Seq<char>)
    requires
        before(a, b),
        before(b, c),
    ensures
        before(a, c),
    decreases a.len(),
{
    if a.len() > 0 && a[0] == b[0] && b[0] == c[0] {
        lemma_before_chains(a.drop_first(), b.drop_first(), c.drop_first());
    }
}

/// There is one way only to bring a set of texts into order.
pub proof fn increasing_list_is_unique(s: Seq<Seq<char>>, t: Seq<Seq<char>>)
    requires
        increasing(s),
        increasing(t),
        forall|x: Seq<char>| #[trigger] s.contains(x) <==> t.contains(x),
    ensures
        s == t,
    decreases s.len(),
{
    if s.len() == 0 {
        if t.len() > 0 {
            assert(t.contains(t[0]));
            assert(s.contains(t[0]));
        }
        assert(s =~= t);
    } else {
        assert(s.contains(s[0]));
        assert(t.contains(s[0]));
        let k = choose|k: int| 0 <= k < t.len() && t[k] == s[0];
        assert(t.contains(t[0]));
        assert(s.contains(t[0]));
        let m = choose|m: int| 0 <= m < s.len() && s[m] == t[0];
        if s[0] != t[0] {
            lemma_before_one_way(t[0], t[k]);
            assert(before(s[0], s[m]));
        }
        let s1 = s.drop_first();
        let t1 = t.drop_first();
        assert forall|x: Seq<char>| #[trigger] s1.contains(x) <==> t1.contains(x) by {
            if s1.contains(x) {
                let i = choose|i: int| 0 <= i < s1.len() && s1[i] == x;
                assert(s[i + 1] == x);
                lemma_before_one_way(s[0], s[i + 1]);
                assert(s.contains(x));
                assert(t.contains(x));
                let j = choose|j: int| 0 <= j < t.len() && t[j] == x;
                assert(t1[j - 1] == x);
            }
            if t1.contains(x) {
                let i = choose|i: int| 0 <= i < t1.len() && t1[i] == x;
                assert(t[i + 1] == x);
                lemma_before_one_way(t[0], t[i + 1]);
                assert(t.contains(x));
                assert(s.contains(x));
                let j = choose|j: int| 0 <= j < s.len() && s[j] == x;
                assert(s1[j - 1] == x);
            }
        }
        assert forall|i: int, j: int| 0 <= i < j < s1.len() implies before(
            #[trigger] s1[i],
            #[trigger] s1[j],
        ) by {
            assert(before(s[i + 1], s[j + 1]));
        }
        assert forall|i: int, j: int| 0 <= i < j < t1.len() implies before(
            #[trigger] t1[i],
            #[trigger] t1[j],
        ) by {
            assert(before(t[i + 1], t[j + 1]));
        }
        increasing_list_is_unique(s1, t1);
        assert(s =~= seq![s[0]] + s1);
        assert(t =~= seq![t[0]] + t1);
    }
}

fn code_point(c: char) -> (r: u32)
    ensures
        r as int == c as int,
{
    c as u32
}

/// Whether `a` comes before `b`.
pub fn is_before(a: &str, b: &str) -> (r: bool)
    ensures
        r == before(a@, b@),
{
    let x: Vec<char> = chars_of(a);
    let y: Vec<char> = chars_of(b);
    let mut i: usize = 0;
    assert(a@.skip(0) =~= a@);
    assert(b@.skip(0) =~= b@);
    while i < x.len() && i < y.len() && x[i] == y[i]
        invariant
            i <= x.len(),
            i <= y.len(),
            x@ == a@,
            y@ == b@,
            before(a@, b@) == before(a@.skip(i as int), b@.skip(i as int)),
        decreases x.len() - i,
    {
        proof {
            assert(a@.skip(i as int).drop_first() =~= a@.skip(i + 1));
            assert(b@.skip(i as int).drop_first() =~= b@.skip(i + 1));
        }
        i = i + 1;
    }
    if i >= y.len() {
        false
    } else if i >= x.len() {
        true
    } else {
        code_point(x[i]) < code_point(y[i])
    }
}

/// The texts of `list`, no two of which are the same, in order.
pub fn sorted(list: Vec<String>) -> (r: Vec<String>)
    requires
        texts(list@).no_duplicates(),
    ensures
        increasing(texts(r@)),
        forall|x: Seq<char>| #[trigger] texts(r@).contains(x) <==> texts(list@).contains(x),
{
    let mut out: Vec<String> = Vec::new();
    let mut n: usize = 0;
    while n < list.len()
        invariant
            n <= list.len(),
            texts(list@).no_duplicates(),
            increasing(texts(out@)),
            forall|x: Seq<char>| #[trigger] texts(out@).contains(x) <==> texts(list@).take(
                n as int,
            ).contains(x),
        decreases list.len() - n,
    {
        let item: String = list[n].clone();
        let ghost x = item@;
        let ghost had = texts(out@);
        assert(x == texts(list@)[n as int]);
        let mut p: usize = 0;
        while p < out.len() && is_before(out[p].as_str(), item.as_str())
            invariant
                p <= out.len(),
                had == texts(out@),
                x == item@,
                forall|i: int| 0 <= i < p ==> before(#[trigger] had[i], x),
            decreases out.len() - p,
        {
            assert(had[p as int] == out@[p as int]@);
            p = p + 1;
        }
        proof {
            assert(!had.contains(x)) by {
                if had.contains(x) {
                    assert(texts(list@).take(n as int).contains(x));
                    let m = choose|m: int|
                        0 <= m < n && #[trigger] texts(list@).take(n as int)[m] == x;
                    assert(texts(list@)[m] == texts(list@)[n as int]);
                }
            }
            if p < had.len() {
                assert(had[p as int] == out@[p as int]@);
                lemma_before_total(had[p as int], x);
                assert(had.contains(had[p as int]));
            }
            assert forall|j: int| p <= j < had.len() implies before(x, #[trigger] had[j]) by {
                if j > p {
                    lemma_before_chains(x, had[p as int], had[j]);
                }
            }
        }
        out.insert(p, item);
        proof {
            let now = texts(out@);
            assert(now =~= had.insert(p as int, x));
            assert forall|i: int, j: int| 0 <= i < j < now.len() implies before(
                #[trigger] now[i],
                #[trigger] now[j],
            ) by {
                let a = if i < p { i } else { i - 1 };
                let b = if j < p { j } else { j - 1 };
                if i != p && j != p {
                    assert(before(had[a], had[b]));
                } else if i == p {
                    assert(before(x, had[b]));
                } else {
                    assert(before(had[a], x));
                }
            }
            let all = texts(list@);
            let next = all.take(n + 1);
            assert forall|z: Seq<char>| #[trigger] now.contains(z) <==> next.contains(
                z,
            ) by {
                assert(next =~= all.take(n as int).push(x));
                if now.contains(z) {
                    let i = choose|i: int| 0 <= i < now.len() && now[i] == z;
                    if i == p {
                        assert(next[n as int] == z);
                    } else {
                        let a = if i < p { i } else { i - 1 };
                        assert(had[a] == z);
                        assert(had.contains(z));
                        assert(all.take(n as int).contains(z));
                        let m = choose|m: int| 0 <= m < n && all.take(n as int)[m] == z;
                        assert(next[m] == z);
                    }
                }
                if next.contains(z) {
                    let m = choose|m: int| 0 <= m < n + 1 && next[m] == z;
                    if m == n {
                        assert(now[p as int] == z);
                    } else {
                        assert(all.take(n as int)[m] == z);
                        assert(had.contains(z));
                        let a = choose|a: int| 0 <= a < had.len() && had[a] == z;
                        if a < p {
                            assert(now[a] == z);
                        } else {
                            assert(now[a + 1] == z);
                        }
                    }
                }
            }
        }
        n = n + 1;
    }
    assert(texts(list@).take(n as int) =~= texts(list@));
    out
}

/// The first character in which two texts differ decides which comes first, and a text
/// comes before all that go on from it.
pub proof fn the_first_difference_decides(
    common: Seq<char>,
    x: char,
    y: char,
    a: Seq<char>,
    b: Seq<char>,
)
    ensures
        x < y ==> before(common + seq![x] + a, common + seq![y] + b),
        y < x ==> !before(common + seq![x] + a, common + seq![y] + b),
        before(common, common + seq![y] + b),
        !before(common + seq![y] + b, common),
        !before(common, common),
    decreases common.len(),
{
    let s = common + seq![x] + a;
    let t = common + seq![y] + b;
    if common.len() > 0 {
        let rest = common.drop_first();
        the_first_difference_decides(rest, x, y, a, b);
        assert(s.drop_first() =~= rest + seq![x] + a);
        assert(t.drop_first() =~= rest + seq![y] + b);
        assert(s[0] == common[0] && t[0] == common[0]);
    } else {
        assert(s[0] == x && t[0] == y);
    }
}

} // verus!
