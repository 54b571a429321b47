//! Combining single-channel Collada animations: animations of one channel
//! each that share their timing and move distinct nodes become one.
use vstd::prelude::*;

use crate::text::{chars_of, decimal, push_decimal, string_from_chars};

verus! {

/// An animation as the combination step sees it: its name, its timing
/// (duration and ticks per second, carried along), a key that is equal
/// for two animations exactly when their timings are equal, and its
/// channels, each with the name of the node it moves.
pub struct AnimEntry<T, C> {
    pub name: String,
    pub timing: T,
    pub timing_key: usize,
    pub channels: Vec<(String, C)>,
}

/// An animation, as a value.
pub struct AnimView<T, C> {
    pub name: Seq<char>,
    pub timing: T,
    pub key: usize,
    pub channels: Seq<(Seq<char>, C)>,
}

pub open spec fn anim_view<T, C>(e: AnimEntry<T, C>) -> AnimView<T, C> {
    AnimView {
        name: e.name@,
        timing: e.timing,
        key: e.timing_key,
        channels: e.channels@.map_values(|c: (String, C)| (c.0@, c.1)),
    }
}

pub open spec fn anims_view<T, C>(v: Seq<AnimEntry<T, C>>) -> Seq<AnimView<T, C>> {
    Seq::new(v.len(), |i: int| anim_view(v[i]))
}

/// The later animations (positions `a + 1 .. b`) of one channel with the
/// timing of animation `a`, in order.
pub open spec fn collect_upto<T, C>(s: Seq<AnimView<T, C>>, a: int, b: int) -> Seq<int>
    decreases b - a,
{
    if b <= a + 1 {
        Seq::empty()
    } else {
        collect_upto(s, a, b - 1) + if s[b - 1].channels.len() == 1 && s[b - 1].key == s[a].key {
            seq![b - 1]
        } else {
            Seq::empty()
        }
    }
}

/// The nodes that animation `a` and the collected animations move.
pub open spec fn target_names<T, C>(s: Seq<AnimView<T, C>>, a: int, col: Seq<int>) -> Seq<Seq<char>> {
    seq![s[a].channels[0].0] + col.map_values(|c: int| s[c].channels[0].0)
}

/// The name of the animation combined at position `a`.
pub open spec fn combined_name(a: nat) -> Seq<char> {
    "combinedAnim_"@ + decimal(a)
}

/// One step at position `a`: an animation of one channel whose later
/// one-channel animations of the same timing exist and all move distinct
/// nodes takes their channels after its own, under the name
/// `combinedAnim_a`; they are left without channels and marked for
/// deletion.
pub open spec fn step<T, C>(s: Seq<AnimView<T, C>>, a: int) -> (Seq<AnimView<T, C>>, Seq<int>) {
    if s[a].channels.len() != 1 {
        (s, Seq::empty())
    } else {
        let col = collect_upto(s, a, s.len() as int);
        if col.len() == 0 || !target_names(s, a, col).no_duplicates() {
            (s, Seq::empty())
        } else {
            let combined = AnimView {
                name: combined_name(a as nat),
                timing: s[a].timing,
                key: s[a].key,
                channels: seq![s[a].channels[0]] + col.map_values(|c: int| s[c].channels[0]),
            };
            (
                Seq::new(s.len(), |i: int| if i == a {
                    combined
                } else if col.contains(i) {
                    AnimView { name: s[i].name, timing: s[i].timing, key: s[i].key, channels: Seq::empty() }
                } else {
                    s[i]
                }),
                col,
            )
        }
    }
}

/// The steps at positions `0 .. a`, with the positions marked so far.
pub open spec fn run<T, C>(s: Seq<AnimView<T, C>>, a: int) -> (Seq<AnimView<T, C>>, Seq<int>)
    decreases a,
{
    if a <= 0 {
        (s, Seq::empty())
    } else {
        let r = run(s, a - 1);
        let t = step(r.0, a - 1);
        (t.0, r.1 + t.1)
    }
}

/// The first `n` animations, without the marked positions.
pub open spec fn drop_marked<T, C>(s: Seq<AnimView<T, C>>, marked: Seq<int>, n: int) -> Seq<AnimView<T, C>>
    decreases n,
{
    if n <= 0 {
        Seq::empty()
    } else {
        drop_marked(s, marked, n - 1) + if marked.contains(n - 1) { Seq::empty() } else { seq![s[n - 1]] }
    }
}

/// The animations after combining.
pub open spec fn combine_spec<T, C>(s: Seq<AnimView<T, C>>) -> Seq<AnimView<T, C>> {
    let r = run(s, s.len() as int);
    drop_marked(r.0, r.1, s.len() as int)
}

proof fn lemma_collect_props<T, C>(s: Seq<AnimView<T, C>>, a: int, b: int)
    requires
        0 <= a < b <= s.len(),
    ensures
        forall|i: int| 0 <= i < collect_upto(s, a, b).len() ==> a < #[trigger] collect_upto(s, a, b)[i] < b,
        forall|i: int, j: int| 0 <= i < j < collect_upto(s, a, b).len()
            ==> collect_upto(s, a, b)[i] < collect_upto(s, a, b)[j],
        forall|i: int| 0 <= i < collect_upto(s, a, b).len() ==> {
            let c = #[trigger] collect_upto(s, a, b)[i];
            s[c].channels.len() == 1 && s[c].key == s[a].key
        },
    decreases b - a,
{
    if b > a + 1 {
        lemma_collect_props(s, a, b - 1);
        let c0 = collect_upto(s, a, b - 1);
        let c = collect_upto(s, a, b);
        assert forall|i: int| 0 <= i < c0.len() implies c[i] == c0[i] by {}
        if c.len() > c0.len() {
            assert(c[c0.len() as int] == b - 1);
        }
    }
}

proof fn lemma_run_len<T, C>(s: Seq<AnimView<T, C>>, a: int)
    ensures
        run(s, a).0.len() == s.len(),
    decreases a,
{
    if a > 0 {
        lemma_run_len(s, a - 1);
    }
}

/// The sum of `f(i)` for `i` in `0 .. n`.
pub open spec fn sum_to(f: spec_fn(int) -> int, n: int) -> int
    decreases n,
{
    if n <= 0 {
        0
    } else {
        sum_to(f, n - 1) + f(n - 1)
    }
}

/// The number of channels of each animation, by position.
pub open spec fn channel_counts<T, C>(s: Seq<AnimView<T, C>>) -> spec_fn(int) -> int {
    |i: int| s[i].channels.len() as int
}

/// The number of channels of all the animations together.
pub open spec fn channel_total<T, C>(s: Seq<AnimView<T, C>>) -> int {
    sum_to(channel_counts(s), s.len() as int)
}

spec fn point(c: int, k: int) -> spec_fn(int) -> int {
    |i: int| if i == c { k } else { 0 }
}

spec fn indicator(col: Seq<int>) -> spec_fn(int) -> int {
    |i: int| if col.contains(i) { 1 } else { 0 }
}

proof fn lemma_sum_ext(f: spec_fn(int) -> int, g: spec_fn(int) -> int, n: int)
    requires
        forall|i: int| 0 <= i < n ==> #[trigger] f(i) == g(i),
    ensures
        sum_to(f, n) == sum_to(g, n),
    decreases n,
{
    if n > 0 {
        lemma_sum_ext(f, g, n - 1);
    }
}

proof fn lemma_sum_add(f: spec_fn(int) -> int, g: spec_fn(int) -> int, h: spec_fn(int) -> int, n: int)
    requires
        forall|i: int| 0 <= i < n ==> #[trigger] f(i) == g(i) + h(i),
    ensures
        sum_to(f, n) == sum_to(g, n) + sum_to(h, n),
    decreases n,
{
    if n > 0 {
        lemma_sum_add(f, g, h, n - 1);
    }
}

proof fn lemma_sum_point(c: int, k: int, n: int)
    ensures
        sum_to(point(c, k), n) == if 0 <= c < n { k } else { 0 },
    decreases n,
{
    if n > 0 {
        lemma_sum_point(c, k, n - 1);
    }
}

proof fn lemma_sum_indicator(col: Seq<int>, n: int)
    requires
        col.no_duplicates(),
        forall|j: int| 0 <= j < col.len() ==> 0 <= #[trigger] col[j] < n,
    ensures
        sum_to(indicator(col), n) == col.len(),
    decreases col.len(),
{
    if col.len() == 0 {
        lemma_sum_point(-1, 0, n);
        assert forall|i: int| 0 <= i < n implies #[trigger] indicator(col)(i) == point(-1, 0)(i) by {}
        lemma_sum_ext(indicator(col), point(-1, 0), n);
    } else {
        let c = col.last();
        let rest = col.drop_last();
        assert(!rest.contains(c)) by {
            if rest.contains(c) {
                let j = choose|j: int| 0 <= j < rest.len() && rest[j] == c;
                assert(col[j] == col[col.len() - 1]);
            }
        }
        assert forall|j: int| 0 <= j < rest.len() implies 0 <= #[trigger] rest[j] < n by {
            assert(rest[j] == col[j]);
        }
        assert(rest.no_duplicates()) by {
            assert forall|p: int, q: int| 0 <= p < rest.len() && 0 <= q < rest.len() && p != q
                implies rest[p] != rest[q] by {
                assert(rest[p] == col[p] && rest[q] == col[q]);
            }
        }
        lemma_sum_indicator(rest, n);
        lemma_sum_point(c, 1, n);
        assert forall|i: int| 0 <= i < n implies #[trigger] indicator(col)(i)
            == indicator(rest)(i) + point(c, 1)(i) by {
            if col.contains(i) {
                let j = choose|j: int| 0 <= j < col.len() && col[j] == i;
                if j < col.len() - 1 {
                    assert(rest[j] == i);
                }
            }
            if rest.contains(i) {
                let j = choose|j: int| 0 <= j < rest.len() && rest[j] == i;
                assert(col[j] == i);
            }
            if i == c {
                assert(col[col.len() - 1] == i);
            }
        }
        lemma_sum_add(indicator(col), indicator(rest), point(c, 1), n);
    }
}

/// Every marked position holds an animation without channels.
pub open spec fn marks_cleared<T, C>(s: Seq<AnimView<T, C>>, marked: Seq<int>) -> bool {
    forall|j: int| 0 <= j < marked.len() ==> {
        &&& 0 <= #[trigger] marked[j] < s.len()
        &&& s[marked[j]].channels.len() == 0
    }
}

proof fn lemma_step_total<T, C>(s: Seq<AnimView<T, C>>, a: int)
    requires
        0 <= a < s.len(),
    ensures
        step(s, a).0.len() == s.len(),
        channel_total(step(s, a).0) == channel_total(s),
        marks_cleared(step(s, a).0, step(s, a).1),
        s[a].channels.len() != 1 ==> step(s, a).0 == s,
        forall|i: int| 0 <= i < s.len() && s[i].channels.len() != 1 ==> #[trigger] step(s, a).0[i] == s[i],
{
    let n = s.len() as int;
    if s[a].channels.len() == 1 {
        let col = collect_upto(s, a, n);
        lemma_collect_props(s, a, n);
        if col.len() != 0 && target_names(s, a, col).no_duplicates() {
            let t = step(s, a).0;
            assert(!col.contains(a)) by {
                if col.contains(a) {
                    let j = choose|j: int| 0 <= j < col.len() && col[j] == a;
                }
            }
            assert(col.no_duplicates()) by {
                assert forall|p: int, q: int| 0 <= p < col.len() && 0 <= q < col.len() && p != q
                    implies col[p] != col[q] by {
                    if p < q {
                        assert(col[p] < col[q]);
                    } else {
                        assert(col[q] < col[p]);
                    }
                }
            }
            let lhs = |i: int| channel_counts(t)(i) + indicator(col)(i);
            let rhs = |i: int| channel_counts(s)(i) + point(a, col.len() as int)(i);
            assert forall|i: int| 0 <= i < n implies #[trigger] lhs(i) == rhs(i) by {
                if col.contains(i) {
                    let j = choose|j: int| 0 <= j < col.len() && col[j] == i;
                    assert(s[col[j]].channels.len() == 1);
                } else if i == a {
                    assert(t[i].channels.len() == 1 + col.len());
                }
            }
            lemma_sum_ext(lhs, rhs, n);
            lemma_sum_add(lhs, channel_counts(t), indicator(col), n);
            lemma_sum_add(rhs, channel_counts(s), point(a, col.len() as int), n);
            lemma_sum_indicator(col, n);
            lemma_sum_point(a, col.len() as int, n);
            assert forall|j: int| 0 <= j < col.len() implies {
                &&& 0 <= #[trigger] col[j] < t.len()
                &&& t[col[j]].channels.len() == 0
            } by {
                assert(col.contains(col[j]));
            }
            assert forall|i: int| 0 <= i < n && s[i].channels.len() != 1 implies #[trigger] t[i] == s[i] by {
                if col.contains(i) {
                    let j = choose|j: int| 0 <= j < col.len() && col[j] == i;
                    assert(s[col[j]].channels.len() == 1);
                }
            }
        }
    }
}

proof fn lemma_run_total<T, C>(s: Seq<AnimView<T, C>>, a: int)
    requires
        0 <= a <= s.len(),
    ensures
        run(s, a).0.len() == s.len(),
        channel_total(run(s, a).0) == channel_total(s),
        marks_cleared(run(s, a).0, run(s, a).1),
    decreases a,
{
    if a > 0 {
        lemma_run_total(s, a - 1);
        let r = run(s, a - 1);
        lemma_step_total(r.0, a - 1);
        let t = step(r.0, a - 1);
        assert forall|j: int| 0 <= j < r.1.len() + t.1.len() implies {
            &&& 0 <= #[trigger] (r.1 + t.1)[j] < t.0.len()
            &&& t.0[(r.1 + t.1)[j]].channels.len() == 0
        } by {
            if j < r.1.len() {
                let m = r.1[j];
                assert((r.1 + t.1)[j] == m);
                assert(r.0[m].channels.len() == 0);
                assert(t.0[m] == r.0[m]);
            } else {
                assert((r.1 + t.1)[j] == t.1[j - r.1.len()]);
            }
        }
    }
}

proof fn lemma_drop_total<T, C>(t: Seq<AnimView<T, C>>, marked: Seq<int>, n: int)
    requires
        0 <= n <= t.len(),
        forall|i: int| 0 <= i < n && marked.contains(i) ==> (#[trigger] t[i]).channels.len() == 0,
    ensures
        channel_total(drop_marked(t, marked, n)) == sum_to(channel_counts(t), n),
    decreases n,
{
    if n > 0 {
        lemma_drop_total(t, marked, n - 1);
        let d0 = drop_marked(t, marked, n - 1);
        let d = drop_marked(t, marked, n);
        if marked.contains(n - 1) {
            assert(d =~= d0);
            assert(t[n - 1].channels.len() == 0);
        } else {
            assert(d =~= d0.push(t[n - 1]));
            assert forall|i: int| 0 <= i < d0.len() implies #[trigger] channel_counts(d)(i)
                == channel_counts(d0)(i) by {
                assert(d[i] == d0[i]);
            }
            lemma_sum_ext(channel_counts(d), channel_counts(d0), d0.len() as int);
        }
    }
}

/// Combining animations neither loses nor adds a channel: the animations
/// that come out have, all together, as many channels as those that went in.
pub proof fn lemma_combine_keeps_channel_total<T, C>(s: Seq<AnimView<T, C>>)
    ensures
        channel_total(combine_spec(s)) == channel_total(s),
{
    let n = s.len() as int;
    lemma_run_total(s, n);
    let r = run(s, n);
    assert forall|i: int| 0 <= i < n && r.1.contains(i) implies (#[trigger] r.0[i]).channels.len() == 0 by {
        let j = choose|j: int| 0 <= j < r.1.len() && r.1[j] == i;
        assert(0 <= r.1[j] < r.0.len());
    }
    lemma_drop_total(r.0, r.1, n);
}

/// How many times `x` occurs in `q`.
pub open spec fn occurrences<T>(q: Seq<T>, x: T) -> nat
    decreases q.len(),
{
    if q.len() == 0 {
        0
    } else {
        occurrences(q.drop_last(), x) + if q.last() == x { 1nat } else { 0nat }
    }
}

/// How many times each animation has the channel `x`, by position.
pub open spec fn occurrence_counts<T, C>(s: Seq<AnimView<T, C>>, x: (Seq<char>, C)) -> spec_fn(int) -> int {
    |i: int| occurrences(s[i].channels, x) as int
}

/// How many times the channel `x` occurs in all the animations together.
pub open spec fn channel_occurrences<T, C>(s: Seq<AnimView<T, C>>, x: (Seq<char>, C)) -> int {
    sum_to(occurrence_counts(s, x), s.len() as int)
}

proof fn lemma_occurrences_concat<T>(p: Seq<T>, q: Seq<T>, x: T)
    ensures
        occurrences(p + q, x) == occurrences(p, x) + occurrences(q, x),
    decreases q.len(),
{
    if q.len() > 0 {
        assert((p + q).drop_last() =~= p + q.drop_last());
        lemma_occurrences_concat(p, q.drop_last(), x);
    } else {
        assert(p + q =~= p);
    }
}

proof fn lemma_occurrences_single<T>(e: T, x: T)
    ensures
        occurrences(seq![e], x) == if e == x { 1nat } else { 0nat },
{
    let q = seq![e];
    assert(q.drop_last() =~= Seq::<T>::empty());
    assert(q.last() == e);
    assert(occurrences(q.drop_last(), x) == 0);
}

spec fn first_weight<T, C>(s: Seq<AnimView<T, C>>, col: Seq<int>, x: (Seq<char>, C)) -> spec_fn(int) -> int {
    |i: int| if col.contains(i) && s[i].channels[0] == x { 1 } else { 0 }
}

proof fn lemma_first_weights<T, C>(s: Seq<AnimView<T, C>>, col: Seq<int>, x: (Seq<char>, C), n: int)
    requires
        col.no_duplicates(),
        forall|j: int| 0 <= j < col.len() ==> 0 <= #[trigger] col[j] < n,
    ensures
        sum_to(first_weight(s, col, x), n) == occurrences(col.map_values(|c: int| s[c].channels[0]), x),
    decreases col.len(),
{
    if col.len() == 0 {
        lemma_sum_point(-1, 0, n);
        assert forall|i: int| 0 <= i < n implies #[trigger] first_weight(s, col, x)(i) == point(-1, 0)(i) by {}
        lemma_sum_ext(first_weight(s, col, x), point(-1, 0), n);
        assert(col.map_values(|c: int| s[c].channels[0]) =~= Seq::<(Seq<char>, C)>::empty());
    } else {
        let c = col.last();
        let rest = col.drop_last();
        assert(!rest.contains(c)) by {
            if rest.contains(c) {
                let j = choose|j: int| 0 <= j < rest.len() && rest[j] == c;
                assert(col[j] == col[col.len() - 1]);
            }
        }
        assert forall|j: int| 0 <= j < rest.len() implies 0 <= #[trigger] rest[j] < n by {
            assert(rest[j] == col[j]);
        }
        assert(rest.no_duplicates()) by {
            assert forall|p: int, q: int| 0 <= p < rest.len() && 0 <= q < rest.len() && p != q
                implies rest[p] != rest[q] by {
                assert(rest[p] == col[p] && rest[q] == col[q]);
            }
        }
        lemma_first_weights(s, rest, x, n);
        let k = if s[c].channels[0] == x { 1int } else { 0int };
        lemma_sum_point(c, k, n);
        assert forall|i: int| 0 <= i < n implies #[trigger] first_weight(s, col, x)(i)
            == first_weight(s, rest, x)(i) + point(c, k)(i) by {
            if col.contains(i) {
                let j = choose|j: int| 0 <= j < col.len() && col[j] == i;
                if j < col.len() - 1 {
                    assert(rest[j] == i);
                }
            }
            if rest.contains(i) {
                let j = choose|j: int| 0 <= j < rest.len() && rest[j] == i;
                assert(col[j] == i);
            }
            if i == c {
                assert(col[col.len() - 1] == i);
            }
        }
        lemma_sum_add(first_weight(s, col, x), first_weight(s, rest, x), point(c, k), n);
        let m = col.map_values(|c: int| s[c].channels[0]);
        assert(m.drop_last() =~= rest.map_values(|c: int| s[c].channels[0]));
        assert(m.last() == s[c].channels[0]);
    }
}

proof fn lemma_step_occurrences<T, C>(s: Seq<AnimView<T, C>>, a: int, x: (Seq<char>, C))
    requires
        0 <= a < s.len(),
    ensures
        channel_occurrences(step(s, a).0, x) == channel_occurrences(s, x),
{
    let n = s.len() as int;
    lemma_step_total(s, a);
    if s[a].channels.len() == 1 {
        let col = collect_upto(s, a, n);
        lemma_collect_props(s, a, n);
        if col.len() != 0 && target_names(s, a, col).no_duplicates() {
            let t = step(s, a).0;
            assert(!col.contains(a)) by {
                if col.contains(a) {
                    let j = choose|j: int| 0 <= j < col.len() && col[j] == a;
                }
            }
            assert(col.no_duplicates()) by {
                assert forall|p: int, q: int| 0 <= p < col.len() && 0 <= q < col.len() && p != q
                    implies col[p] != col[q] by {
                    if p < q {
                        assert(col[p] < col[q]);
                    } else {
                        assert(col[q] < col[p]);
                    }
                }
            }
            let m = col.map_values(|c: int| s[c].channels[0]);
            let k = occurrences(m, x) as int;
            let lhs = |i: int| occurrence_counts(t, x)(i) + first_weight(s, col, x)(i);
            let rhs = |i: int| occurrence_counts(s, x)(i) + point(a, k)(i);
            assert forall|i: int| 0 <= i < n implies #[trigger] lhs(i) == rhs(i) by {
                if col.contains(i) {
                    let j = choose|j: int| 0 <= j < col.len() && col[j] == i;
                    assert(s[col[j]].channels.len() == 1);
                    assert(s[i].channels =~= seq![s[i].channels[0]]);
                    lemma_occurrences_single(s[i].channels[0], x);
                    assert(t[i].channels =~= Seq::<(Seq<char>, C)>::empty());
                } else if i == a {
                    assert(t[i].channels == seq![s[a].channels[0]] + m);
                    lemma_occurrences_concat(seq![s[a].channels[0]], m, x);
                    lemma_occurrences_single(s[a].channels[0], x);
                    assert(s[a].channels =~= seq![s[a].channels[0]]);
                }
            }
            lemma_sum_ext(lhs, rhs, n);
            lemma_sum_add(lhs, occurrence_counts(t, x), first_weight(s, col, x), n);
            lemma_sum_add(rhs, occurrence_counts(s, x), point(a, k), n);
            lemma_first_weights(s, col, x, n);
            lemma_sum_point(a, k, n);
        }
    }
}

proof fn lemma_run_occurrences<T, C>(s: Seq<AnimView<T, C>>, a: int, x: (Seq<char>, C))
    requires
        0 <= a <= s.len(),
    ensures
        channel_occurrences(run(s, a).0, x) == channel_occurrences(s, x),
    decreases a,
{
    if a > 0 {
        lemma_run_occurrences(s, a - 1, x);
        lemma_run_total(s, a - 1);
        lemma_step_occurrences(run(s, a - 1).0, a - 1, x);
    }
}

proof fn lemma_drop_occurrences<T, C>(t: Seq<AnimView<T, C>>, marked: Seq<int>, n: int, x: (Seq<char>, C))
    requires
        0 <= n <= t.len(),
        forall|i: int| 0 <= i < n && marked.contains(i) ==> (#[trigger] t[i]).channels.len() == 0,
    ensures
        channel_occurrences(drop_marked(t, marked, n), x) == sum_to(occurrence_counts(t, x), n),
    decreases n,
{
    if n > 0 {
        lemma_drop_occurrences(t, marked, n - 1, x);
        let d0 = drop_marked(t, marked, n - 1);
        let d = drop_marked(t, marked, n);
        if marked.contains(n - 1) {
            assert(d =~= d0);
            assert(t[n - 1].channels.len() == 0);
            assert(t[n - 1].channels =~= Seq::<(Seq<char>, C)>::empty());
        } else {
            assert(d =~= d0.push(t[n - 1]));
            assert forall|i: int| 0 <= i < d0.len() implies #[trigger] occurrence_counts(d, x)(i)
                == occurrence_counts(d0, x)(i) by {
                assert(d[i] == d0[i]);
            }
            lemma_sum_ext(occurrence_counts(d, x), occurrence_counts(d0, x), d0.len() as int);
        }
    }
}

/// Combining animations keeps every channel: each channel occurs as many
/// times in the animations that come out as in those that went in (the
/// multiset of channels is unchanged).
pub proof fn lemma_combine_keeps_channels<T, C>(s: Seq<AnimView<T, C>>, x: (Seq<char>, C))
    ensures
        channel_occurrences(combine_spec(s), x) == channel_occurrences(s, x),
{
    let n = s.len() as int;
    lemma_run_total(s, n);
    lemma_run_occurrences(s, n, x);
    let r = run(s, n);
    assert forall|i: int| 0 <= i < n && r.1.contains(i) implies (#[trigger] r.0[i]).channels.len() == 0 by {
        let j = choose|j: int| 0 <= j < r.1.len() && r.1[j] == i;
        assert(0 <= r.1[j] < r.0.len());
    }
    lemma_drop_occurrences(r.0, r.1, n, x);
}

proof fn lemma_drop_len<T, C>(t: Seq<AnimView<T, C>>, marked: Seq<int>, n: int)
    requires
        0 <= n,
    ensures
        drop_marked(t, marked, n).len() <= n,
    decreases n,
{
    if n > 0 {
        lemma_drop_len(t, marked, n - 1);
    }
}

/// Combining never adds an animation: at most as many come out as went in.
pub proof fn lemma_combine_never_grows<T, C>(s: Seq<AnimView<T, C>>)
    ensures
        combine_spec(s).len() <= s.len(),
{
    let r = run(s, s.len() as int);
    lemma_drop_len(r.0, r.1, s.len() as int);
}

proof fn lemma_run_keeps_others<T, C>(s: Seq<AnimView<T, C>>, a: int)
    requires
        0 <= a <= s.len(),
    ensures
        forall|i: int| 0 <= i < s.len() && s[i].channels.len() != 1 ==> {
            &&& #[trigger] run(s, a).0[i] == s[i]
            &&& !run(s, a).1.contains(i)
        },
    decreases a,
{
    if a > 0 {
        lemma_run_keeps_others(s, a - 1);
        lemma_run_total(s, a - 1);
        let r = run(s, a - 1);
        lemma_step_total(r.0, a - 1);
        let t = step(r.0, a - 1);
        assert forall|i: int| 0 <= i < s.len() && s[i].channels.len() != 1 implies {
            &&& #[trigger] run(s, a).0[i] == s[i]
            &&& !run(s, a).1.contains(i)
        } by {
            assert(r.0[i] == s[i]);
            assert(t.0[i] == r.0[i]);
            if r.0[a - 1].channels.len() == 1 {
                lemma_collect_props(r.0, a - 1, r.0.len() as int);
            }
            if t.1.contains(i) {
                let j = choose|j: int| 0 <= j < t.1.len() && t.1[j] == i;
                assert(r.0[t.1[j]].channels.len() == 1);
            }
            if (r.1 + t.1).contains(i) {
                let j = choose|j: int| 0 <= j < (r.1 + t.1).len() && (r.1 + t.1)[j] == i;
                if j < r.1.len() {
                    assert(r.1[j] == i);
                } else {
                    assert(t.1[j - r.1.len()] == i);
                }
            }
        }
    }
}

/// Combining leaves every animation that does not have exactly one
/// channel as it was: after all steps it is unchanged and not marked, so
/// it comes out (see `combine_spec`) in its place among the others.
pub proof fn lemma_combine_keeps_others<T, C>(s: Seq<AnimView<T, C>>)
    ensures
        forall|i: int| 0 <= i < s.len() && s[i].channels.len() != 1 ==> {
            &&& #[trigger] run(s, s.len() as int).0[i] == s[i]
            &&& !run(s, s.len() as int).1.contains(i)
        },
{
    lemma_run_keeps_others(s, s.len() as int);
}

/// Without an animation of exactly one channel, combining changes nothing.
pub proof fn lemma_combine_without_singles<T, C>(s: Seq<AnimView<T, C>>)
    requires
        forall|i: int| 0 <= i < s.len() ==> (#[trigger] s[i]).channels.len() != 1,
    ensures
        combine_spec(s) == s,
{
    let n = s.len() as int;
    lemma_run_keeps_others(s, n);
    lemma_run_len(s, n);
    let r = run(s, n);
    assert forall|i: int| 0 <= i < n implies !r.1.contains(i) by {
        assert(r.0[i] == s[i]);
    }
    assert forall|i: int| 0 <= i < n implies r.0[i] == s[i] by {
        assert(r.0[i] == s[i]);
    }
    lemma_drop_unmarked(r.0, r.1, n);
    assert(r.0 =~= s);
    assert(r.0.take(n) =~= s);
}

proof fn lemma_drop_unmarked<T, C>(t: Seq<AnimView<T, C>>, marked: Seq<int>, n: int)
    requires
        0 <= n <= t.len(),
        forall|i: int| 0 <= i < n ==> !marked.contains(i),
    ensures
        drop_marked(t, marked, n) == t.take(n),
    decreases n,
{
    if n > 0 {
        lemma_drop_unmarked(t, marked, n - 1);
        assert(t.take(n) =~= t.take(n - 1).push(t[n - 1]));
    } else {
        assert(t.take(0) =~= Seq::<AnimView<T, C>>::empty());
    }
}

/// How many of the positions `0 .. i` are not marked.
pub open spec fn kept_before(marked: Seq<int>, i: int) -> nat
    decreases i,
{
    if i <= 0 {
        0
    } else {
        kept_before(marked, i - 1) + if marked.contains(i - 1) { 0nat } else { 1nat }
    }
}

/// The nodes the channels of an animation move, in order.
pub open spec fn channel_nodes<T, C>(a: AnimView<T, C>) -> Seq<Seq<char>> {
    a.channels.map_values(|c: (Seq<char>, C)| c.0)
}

proof fn lemma_drop_positions<T, C>(t: Seq<AnimView<T, C>>, marked: Seq<int>, k: int)
    requires
        0 <= k,
    ensures
        drop_marked(t, marked, k).len() == kept_before(marked, k),
        forall|i: int| 0 <= i < k && !marked.contains(i) ==> #[trigger] kept_before(marked, i) < kept_before(marked, k),
        forall|i: int| 0 <= i < k && !marked.contains(i) ==> #[trigger] drop_marked(t, marked, k)[kept_before(marked, i) as int] == t[i],
    decreases k,
{
    if k > 0 {
        lemma_drop_positions(t, marked, k - 1);
        let last: Seq<AnimView<T, C>> = if marked.contains(k - 1) { Seq::empty() } else { seq![t[k - 1]] };
        assert(drop_marked(t, marked, k) == drop_marked(t, marked, k - 1) + last);
        assert(kept_before(marked, k) == kept_before(marked, k - 1) + if marked.contains(k - 1) { 0nat } else { 1nat });
        assert forall|i: int| 0 <= i < k && !marked.contains(i) implies #[trigger] kept_before(marked, i) < kept_before(marked, k)
            && drop_marked(t, marked, k)[kept_before(marked, i) as int] == t[i] by {
            if i < k - 1 {
                assert(drop_marked(t, marked, k - 1)[kept_before(marked, i) as int] == t[i]);
                assert(kept_before(marked, i) < kept_before(marked, k - 1));
            } else {
                assert(drop_marked(t, marked, k)[kept_before(marked, k - 1) as int] == t[k - 1]);
            }
        }
    }
}

proof fn lemma_run_never_merges<T, C>(s: Seq<AnimView<T, C>>, a: int)
    requires
        0 <= a <= s.len(),
    ensures
        forall|i: int| 0 <= i < s.len() ==> (#[trigger] run(s, a).0[i]).channels == s[i].channels
            || channel_nodes(run(s, a).0[i]).no_duplicates(),
    decreases a,
{
    if a > 0 {
        lemma_run_never_merges(s, a - 1);
        lemma_run_len(s, a - 1);
        let r = run(s, a - 1);
        let t = step(r.0, a - 1);
        lemma_step_total(r.0, a - 1);
        assert forall|i: int| 0 <= i < s.len() implies (#[trigger] run(s, a).0[i]).channels == s[i].channels
            || channel_nodes(run(s, a).0[i]).no_duplicates() by {
            assert(run(s, a).0 == t.0);
            if r.0[a - 1].channels.len() == 1 {
                let col = collect_upto(r.0, a - 1, r.0.len() as int);
                if col.len() > 0 && target_names(r.0, a - 1, col).no_duplicates() {
                    if i == a - 1 {
                        assert(channel_nodes(t.0[i]) =~= target_names(r.0, a - 1, col));
                    } else if col.contains(i) {
                        assert(channel_nodes(t.0[i]) =~= Seq::<Seq<char>>::empty());
                    }
                }
            }
        }
    }
}

/// Combining keeps the animations it does not drop in their order, and
/// never puts two channels that move the same node into one animation
/// that did not have them: after all steps (see `combine_spec`), the
/// animation at each kept position `i` comes out at position
/// `kept_before(.., i)`, kept positions further on come out further on,
/// as many come out as positions are kept, and the
/// animation at each position either has the channels the animation there
/// came in with or moves each node by one channel at most.
pub proof fn lemma_combine_keeps_order<T, C>(s: Seq<AnimView<T, C>>)
    ensures
        ({
            let r = run(s, s.len() as int);
            let out = combine_spec(s);
            &&& out.len() == kept_before(r.1, s.len() as int)
            &&& forall|i: int| 0 <= i < s.len() && !r.1.contains(i) ==> #[trigger] kept_before(r.1, i) < out.len()
            &&& forall|i: int| 0 <= i < s.len() && !r.1.contains(i) ==> #[trigger] out[kept_before(r.1, i) as int] == r.0[i]
            &&& forall|i: int, j: int| 0 <= i < j < s.len() && !r.1.contains(i) && !r.1.contains(j)
                ==> #[trigger] kept_before(r.1, i) < #[trigger] kept_before(r.1, j)
            &&& forall|i: int| 0 <= i < s.len() ==> (#[trigger] r.0[i]).channels == s[i].channels
                || channel_nodes(r.0[i]).no_duplicates()
        }),
{
    let n = s.len() as int;
    let r = run(s, n);
    lemma_drop_positions(r.0, r.1, n);
    lemma_run_never_merges(s, n);
    assert forall|i: int, j: int| 0 <= i < j < s.len() && !r.1.contains(i) && !r.1.contains(j)
        implies #[trigger] kept_before(r.1, i) < #[trigger] kept_before(r.1, j) by {
        lemma_drop_positions(r.0, r.1, j);
        assert(kept_before(r.1, i) < kept_before(r.1, j));
    }
}

proof fn lemma_run_one_node<T, C>(s: Seq<AnimView<T, C>>, node: Seq<char>, a: int)
    requires
        0 <= a <= s.len(),
        forall|i: int| 0 <= i < s.len() && (#[trigger] s[i]).channels.len() == 1 ==> s[i].channels[0].0 == node,
    ensures
        run(s, a) == (s, Seq::<int>::empty()),
    decreases a,
{
    if a > 0 {
        lemma_run_one_node(s, node, a - 1);
        let b = a - 1;
        if s[b].channels.len() == 1 {
            let col = collect_upto(s, b, s.len() as int);
            lemma_collect_props(s, b, s.len() as int);
            if col.len() > 0 {
                let names = target_names(s, b, col);
                assert(names[0] == node);
                assert(s[col[0]].channels.len() == 1);
                assert(names[1] == s[col[0]].channels[0].0);
                assert(!names.no_duplicates());
            }
        }
        assert(Seq::<int>::empty() + Seq::<int>::empty() =~= Seq::<int>::empty());
    }
}

/// When every animation of exactly one channel moves the same node,
/// combining changes nothing: no two of them are ever merged.
pub proof fn lemma_combine_one_node<T, C>(s: Seq<AnimView<T, C>>, node: Seq<char>)
    requires
        forall|i: int| 0 <= i < s.len() && (#[trigger] s[i]).channels.len() == 1 ==> s[i].channels[0].0 == node,
    ensures
        combine_spec(s) == s,
{
    let n = s.len() as int;
    lemma_run_one_node(s, node, n);
    lemma_drop_unmarked(s, Seq::<int>::empty(), n);
    assert(s.take(n) =~= s);
}

/// The texts of a list of character vectors.
pub open spec fn char_texts(v: Seq<Vec<char>>) -> Seq<Seq<char>> {
    Seq::new(v.len(), |i: int| v[i]@)
}

fn has_duplicate(v: &Vec<Vec<char>>) -> (r: bool)
    ensures
        r == !char_texts(v@).no_duplicates(),
{
    let ghost w = char_texts(v@);
    let mut i: usize = 0;
    while i < v.len()
        invariant
            w == v@.map_values(|x: Vec<char>| x@),
            i <= v@.len(),
            forall|p: int, q: int| 0 <= p < q < i ==> w[p] != w[q],
        decreases v@.len() - i,
    {
        let mut j: usize = 0;
        while j < i
            invariant
                w == char_texts(v@),
                i < v@.len(),
                j <= i,
                forall|p: int| 0 <= p < j ==> w[p] != w[i as int],
            decreases i - j,
        {
            if crate::text::chars_eq(&v[j], &v[i]) {
                assert(w[j as int] == w[i as int]);
                return true;
            }
            j = j + 1;
        }
        i = i + 1;
    }
    false
}

/// Combines single-channel animations (see `combine_spec`): each one-channel
/// animation, in order, takes the channels of the later one-channel
/// animations with the same timing, when there are any and all of them
/// move distinct nodes; those are then dropped.
pub fn combine_single_channel_anims<T: Copy, C>(anims: Vec<AnimEntry<T, C>>) -> (r: Vec<AnimEntry<T, C>>)
    ensures
        anims_view(r@) == combine_spec(anims_view(anims@)),
{
    let ghost s0 = anims_view(anims@);
    let n = anims.len();
    let mut anims = anims;
    let mut deleted: Vec<bool> = Vec::new();
    let mut z: usize = 0;
    while z < n
        invariant
            z <= n,
            deleted@.len() == z,
            forall|i: int| 0 <= i < z ==> !deleted@[i],
        decreases n - z,
    {
        deleted.push(false);
        z = z + 1;
    }
    let mut a: usize = 0;
    while a < n
        invariant
            n == s0.len(),
            anims@.len() == n,
            deleted@.len() == n,
            a <= n,
            anims_view(anims@) == run(s0, a as int).0,
            forall|i: int| 0 <= i < n ==> deleted@[i] == run(s0, a as int).1.contains(i),
        decreases n - a,
    {
        let ghost s = anims_view(anims@);
        proof {
            lemma_run_len(s0, a as int);
        }
        assert(s[a as int] == anim_view(anims@[a as int]));
        if anims[a].channels.len() != 1 {
            proof {
                assert(step(s, a as int) == (s, Seq::<int>::empty()));
                assert forall|i: int| 0 <= i < n implies deleted@[i] == run(s0, a + 1).1.contains(i) by {
                    assert(run(s0, a + 1).1 =~= run(s0, a as int).1 + Seq::<int>::empty());
                }
            }
            a = a + 1;
            continue;
        }
        let key = anims[a].timing_key;
        let mut collected: Vec<usize> = Vec::new();
        let mut b: usize = a + 1;
        while b < n
            invariant
                n == s.len(),
                anims@.len() == n,
                s == anims_view(anims@),
                a < n,
                a + 1 <= b <= n,
                key == s[a as int].key,
                collected@.map_values(|c: usize| c as int) == collect_upto(s, a as int, b as int),
            decreases n - b,
        {
            assert(s[b as int] == anim_view(anims@[b as int]));
            let ghost cb = collected@;
            assert(anims@[b as int].channels@.len() == s[b as int].channels.len());
            if anims[b].channels.len() == 1 && anims[b].timing_key == key {
                collected.push(b);
                assert(collected@.map_values(|c: usize| c as int) =~= cb.map_values(|c: usize| c as int).push(b as int));
            }
            assert(collect_upto(s, a as int, b + 1) == collect_upto(s, a as int, b as int) + if s[b as int].channels.len() == 1 && s[b as int].key == s[a as int].key {
                seq![b as int]
            } else {
                Seq::<int>::empty()
            });
            assert(collected@.map_values(|c: usize| c as int) =~= collect_upto(s, a as int, b + 1));
            b = b + 1;
        }
        let ghost col = collect_upto(s, a as int, n as int);
        proof {
            lemma_collect_props(s, a as int, n as int);
        }
        assert(collected@.map_values(|c: usize| c as int) == col);
        let mut names: Vec<Vec<char>> = Vec::new();
        names.push(chars_of(anims[a].channels[0].0.as_str()));
        let mut k: usize = 0;
        while k < collected.len()
            invariant
                n == s.len(),
                anims@.len() == n,
                s == anims_view(anims@),
                a < n,
                s[a as int].channels.len() == 1,
                collected@.map_values(|c: usize| c as int) == col,
                forall|i: int| 0 <= i < col.len() ==> a < #[trigger] col[i] < n,
                forall|i: int| 0 <= i < col.len() ==> (#[trigger] s[col[i]]).channels.len() == 1,
                k <= collected@.len(),
                char_texts(names@) == target_names(s, a as int, col.take(k as int)),
            decreases collected@.len() - k,
        {
            let c = collected[k];
            assert(col[k as int] == c as int);
            assert(s[c as int] == anim_view(anims@[c as int]));
            let ghost nb = char_texts(names@);
            let nc = chars_of(anims[c].channels[0].0.as_str());
            assert(nc@ == s[c as int].channels[0].0);
            names.push(nc);
            assert(char_texts(names@) =~= nb.push(nc@));
            assert(col.take(k + 1) =~= col.take(k as int).push(c as int));
            assert(col.take(k + 1).map_values(|x: int| s[x].channels[0].0)
                =~= col.take(k as int).map_values(|x: int| s[x].channels[0].0).push(s[c as int].channels[0].0));
            assert(char_texts(names@) =~= target_names(s, a as int, col.take(k + 1)));
            k = k + 1;
        }
        assert(col.take(col.len() as int) =~= col);
        assert(char_texts(names@) == target_names(s, a as int, col));
        let dup = has_duplicate(&names);
        if dup || collected.len() == 0 {
            proof {
                assert(step(s, a as int) == (s, Seq::<int>::empty()));
                assert forall|i: int| 0 <= i < n implies deleted@[i] == run(s0, a + 1).1.contains(i) by {
                    assert(run(s0, a + 1).1 =~= run(s0, a as int).1 + Seq::<int>::empty());
                }
            }
            a = a + 1;
            continue;
        }
        assert(target_names(s, a as int, col).no_duplicates());
        assert(col.len() > 0);
        let ghost combined_channels = seq![s[a as int].channels[0]] + col.map_values(|c: int| s[c].channels[0]);
        let mut chans: Vec<(String, C)> = Vec::new();
        std::mem::swap(&mut chans, &mut anims[a].channels);
        assert(chans@.map_values(|c: (String, C)| (c.0@, c.1)) =~= seq![s[a as int].channels[0]]);
        let mut k: usize = 0;
        while k < collected.len()
            invariant
                n == s.len(),
                anims@.len() == n,
                a < n,
                s[a as int].channels.len() == 1,
                target_names(s, a as int, col).no_duplicates(),
                col.len() > 0,
                collected@.map_values(|c: usize| c as int) == col,
                forall|i: int| 0 <= i < col.len() ==> a < #[trigger] col[i] < n,
                forall|i: int, j: int| 0 <= i < j < col.len() ==> col[i] < col[j],
                forall|i: int| 0 <= i < col.len() ==> (#[trigger] s[col[i]]).channels.len() == 1,
                k <= collected@.len(),
                chans@.map_values(|c: (String, C)| (c.0@, c.1))
                    == seq![s[a as int].channels[0]] + col.take(k as int).map_values(|c: int| s[c].channels[0]),
                forall|i: int| 0 <= i < n ==> {
                    let v = #[trigger] anim_view(anims@[i]);
                    &&& v.name == s[i].name
                    &&& v.timing == s[i].timing
                    &&& v.key == s[i].key
                    &&& v.channels == if i == a as int || col.take(k as int).contains(i) {
                        Seq::empty()
                    } else {
                        s[i].channels
                    }
                },
            decreases collected@.len() - k,
        {
            let c = collected[k];
            assert(col[k as int] == c as int);
            assert(anim_view(anims@[c as int]).channels == s[c as int].channels) by {
                if col.take(k as int).contains(c as int) {
                    let j = choose|j: int| 0 <= j < k && col.take(k as int)[j] == c as int;
                    assert(col[j] < col[k as int]);
                }
            }
            let ghost before = anims@;
            let mut taken: Vec<(String, C)> = Vec::new();
            std::mem::swap(&mut taken, &mut anims[c].channels);
            assert(taken@.map_values(|x: (String, C)| (x.0@, x.1)) =~= seq![s[c as int].channels[0]]);
            let ghost cv = chans@;
            let ghost tv = taken@;
            chans.append(&mut taken);
            proof {
                assert(chans@ == cv + tv);
                assert((cv + tv).map_values(|x: (String, C)| (x.0@, x.1))
                    =~= cv.map_values(|x: (String, C)| (x.0@, x.1)) + tv.map_values(|x: (String, C)| (x.0@, x.1)));
                assert(col.take(k + 1) =~= col.take(k as int).push(c as int));
                assert(col.take(k + 1).map_values(|x: int| s[x].channels[0])
                    =~= col.take(k as int).map_values(|x: int| s[x].channels[0]).push(s[c as int].channels[0]));
                assert(chans@.map_values(|x: (String, C)| (x.0@, x.1))
                    =~= seq![s[a as int].channels[0]] + col.take(k + 1).map_values(|x: int| s[x].channels[0]));
                assert forall|i: int| 0 <= i < n implies {
                    let v = #[trigger] anim_view(anims@[i]);
                    &&& v.name == s[i].name
                    &&& v.timing == s[i].timing
                    &&& v.key == s[i].key
                    &&& v.channels == if i == a as int || col.take(k + 1).contains(i) {
                        Seq::empty()
                    } else {
                        s[i].channels
                    }
                } by {
                    if i != c as int {
                        assert(anims@[i] == before[i]);
                        assert(col.take(k + 1).contains(i) == col.take(k as int).contains(i));
                    } else {
                        assert(anim_view(anims@[i]).channels =~= Seq::empty());
                        assert(col.take(k + 1)[k as int] == i);
                    }
                }
            }
            k = k + 1;
        }
        assert(col.take(col.len() as int) =~= col);
        let mut nm = chars_of("combinedAnim_");
        push_decimal(&mut nm, a);
        proof {
            reveal_strlit("combinedAnim_");
        }
        assert(nm@ =~= combined_name(a as nat));
        let timing = anims[a].timing;
        let ghost before = anims@;
        anims.set(a, AnimEntry { name: string_from_chars(&nm), timing, timing_key: key, channels: chans });
        let mut k: usize = 0;
        while k < collected.len()
            invariant
                deleted@.len() == n,
                target_names(s, a as int, col).no_duplicates(),
                col.len() > 0,
                collected@.map_values(|c: usize| c as int) == col,
                forall|i: int| 0 <= i < col.len() ==> a < #[trigger] col[i] < n,
                k <= collected@.len(),
                forall|i: int| 0 <= i < n ==> deleted@[i]
                    == (run(s0, a as int).1.contains(i) || col.take(k as int).contains(i)),
            decreases collected@.len() - k,
        {
            let c = collected[k];
            assert(col[k as int] == c as int);
            let ghost db = deleted@;
            deleted.set(c, true);
            proof {
                assert(col.take(k + 1) =~= col.take(k as int).push(c as int));
                assert forall|i: int| 0 <= i < n implies deleted@[i]
                    == (run(s0, a as int).1.contains(i) || col.take(k + 1).contains(i)) by {
                    if i == c as int {
                        assert(col.take(k + 1)[k as int] == i);
                    } else {
                        assert(deleted@[i] == db[i]);
                        assert(col.take(k + 1).contains(i) == col.take(k as int).contains(i));
                    }
                }
            }
            k = k + 1;
        }
        proof {
            let st = step(s, a as int);
            assert(target_names(s, a as int, col).no_duplicates());
            assert(st.1 == col);
            assert(anims_view(anims@) =~= st.0) by {
                assert forall|i: int| 0 <= i < n implies anims_view(anims@)[i] == st.0[i] by {
                    assert(anims_view(anims@)[i] == anim_view(anims@[i]));
                    if i == a as int {
                        let va = anim_view(before[i]);
                        assert(va.timing == s[i].timing);
                        assert(anim_view(anims@[i]).timing == s[i].timing);
                        assert(anim_view(anims@[i]).key == s[i].key);
                        assert(anim_view(anims@[i]).channels =~= combined_channels);
                        assert(anim_view(anims@[i]).name == combined_name(a as nat));
                        assert(st.0[i] == AnimView {
                            name: combined_name(a as nat),
                            timing: s[a as int].timing,
                            key: s[a as int].key,
                            channels: combined_channels,
                        });
                    } else {
                        assert(anims@[i] == before[i]);
                        let v = anim_view(before[i]);
                        assert(v.name == s[i].name && v.timing == s[i].timing && v.key == s[i].key);
                        if col.contains(i) {
                            assert(v.channels =~= Seq::<(Seq<char>, C)>::empty());
                        } else {
                            assert(v.channels == s[i].channels);
                            assert(v == s[i]);
                        }
                    }
                }
            }
            assert(st.1 == col);
            assert(run(s0, a as int).0 == s);
            assert(run(s0, a + 1) == (step(s, a as int).0, run(s0, a as int).1 + step(s, a as int).1));
            assert(col.take(col.len() as int) =~= col);
            let r1 = run(s0, a as int).1;
            assert forall|i: int| 0 <= i < n implies deleted@[i] == run(s0, a + 1).1.contains(i) by {
                assert(run(s0, a + 1).1 =~= r1 + col);
                if r1.contains(i) {
                    let j = choose|j: int| 0 <= j < r1.len() && r1[j] == i;
                    assert((r1 + col)[j] == i);
                }
                if col.contains(i) {
                    let j = choose|j: int| 0 <= j < col.len() && col[j] == i;
                    assert((r1 + col)[r1.len() + j] == i);
                }
                if (r1 + col).contains(i) {
                    let j = choose|j: int| 0 <= j < (r1 + col).len() && (r1 + col)[j] == i;
                    if j < r1.len() {
                        assert(r1[j] == i);
                    } else {
                        assert(col[j - r1.len()] == i);
                    }
                }
            }
        }
        a = a + 1;
    }
    let ghost fin = run(s0, n as int);
    proof {
        lemma_run_len(s0, n as int);
    }
    let mut out: Vec<AnimEntry<T, C>> = Vec::new();
    let mut rest = anims;
    let ghost all = rest@;
    let mut i: usize = 0;
    assert(anims_view(out@) =~= drop_marked(fin.0, fin.1, 0));
    while i < n
        invariant
            n == s0.len(),
            rest@.len() == n,
            deleted@.len() == n,
            anims_view(all) == fin.0,
            fin.0.len() == n,
            i <= n,
            forall|j: int| i <= j < n ==> rest@[j] == all[j],
            forall|j: int| 0 <= j < n ==> deleted@[j] == fin.1.contains(j),
            anims_view(out@) == drop_marked(fin.0, fin.1, i as int),
        decreases n - i,
    {
        let mut e = AnimEntry { name: String::new(), timing: rest[i].timing, timing_key: 0, channels: Vec::new() };
        std::mem::swap(&mut e, &mut rest[i]);
        assert(e == all[i as int]);
        if !deleted[i] {
            out.push(e);
            assert(anims_view(out@) =~= drop_marked(fin.0, fin.1, i + 1)) by {
                assert(fin.0[i as int] == anim_view(all[i as int]));
            }
        } else {
            assert(anims_view(out@) =~= drop_marked(fin.0, fin.1, i + 1));
        }
        i = i + 1;
    }
    out
}

} // verus!
