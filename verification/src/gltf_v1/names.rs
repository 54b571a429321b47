//! Unique names for the objects of an exported glTF document.
use vstd::prelude::*;

use crate::text::{chars_eq, chars_of, decimal, is_digit, lemma_decimal_injective, lemma_decimal_shape, push_decimal, string_from_chars};

verus! {

/// `base + "_" + n`, the name that the counter `n` proposes for `base`.
pub open spec fn numbered(base: Seq<char>, n: nat) -> Seq<char> {
    base + seq!['_'] + decimal(n)
}

/// Whether some key ends in `_` followed by the decimal digits of `n`.
pub open spec fn in_p(keys: Seq<Seq<char>>, n: nat) -> bool {
    exists|i: int, b: Seq<char>| #![trigger keys[i], numbered(b, n)] 0 <= i < keys.len() && keys[i] == numbered(b, n)
}

/// How many numbers below `x` some key ends with.
pub open spec fn count_p(keys: Seq<Seq<char>>, x: nat) -> nat
    decreases x,
{
    if x == 0 {
        0
    } else {
        count_p(keys, (x - 1) as nat) + if in_p(keys, (x - 1) as nat) { 1nat } else { 0nat }
    }
}

/// The number that a key ends with after its last `_`, if it has that shape.
pub open spec fn suffix_number(s: Seq<char>) -> Option<nat> {
    if exists|b: Seq<char>, n: nat| s == #[trigger] numbered(b, n) {
        Some((choose|b: Seq<char>, n: nat| s == #[trigger] numbered(b, n)).1)
    } else {
        None
    }
}

/// How many keys end with a number below `x`.
pub open spec fn count_k(keys: Seq<Seq<char>>, x: nat) -> nat
    decreases keys.len(),
{
    if keys.len() == 0 {
        0
    } else {
        count_k(keys.drop_last(), x) + match suffix_number(keys.last()) {
            Some(n) => if n < x { 1nat } else { 0nat },
            None => 0nat,
        }
    }
}

/// How many keys end with exactly the number `x`.
pub open spec fn count_eq(keys: Seq<Seq<char>>, x: nat) -> nat
    decreases keys.len(),
{
    if keys.len() == 0 {
        0
    } else {
        count_eq(keys.drop_last(), x) + if suffix_number(keys.last()) == Some(x) { 1nat } else { 0nat }
    }
}

/// A name splits into base and number in at most one way.
proof fn lemma_numbered_unique(b1: Seq<char>, n1: nat, b2: Seq<char>, n2: nat)
    requires
        numbered(b1, n1) == numbered(b2, n2),
    ensures
        n1 == n2,
{
    let s = numbered(b1, n1);
    let d1 = decimal(n1);
    let d2 = decimal(n2);
    lemma_decimal_shape(n1);
    lemma_decimal_shape(n2);
    if d1.len() == d2.len() {
        assert(d1 =~= s.skip(s.len() - d1.len()));
        assert(d2 =~= s.skip(s.len() - d2.len()));
        lemma_decimal_injective(n1, n2);
    } else if d1.len() < d2.len() {
        let k = s.len() - d1.len() - 1;
        assert(s[k] == '_');
        let m = k - (s.len() - d2.len());
        assert(d2[m] == s[k]);
        assert(is_digit(d2[m]));
    } else {
        let k = s.len() - d2.len() - 1;
        assert(s[k] == '_');
        let m = k - (s.len() - d1.len());
        assert(d1[m] == s[k]);
        assert(is_digit(d1[m]));
    }
}

proof fn lemma_suffix_number(b: Seq<char>, n: nat)
    ensures
        suffix_number(numbered(b, n)) == Some(n),
{
    let s = numbered(b, n);
    assert(exists|b2: Seq<char>, n2: nat| s == #[trigger] numbered(b2, n2));
    let (b2, m) = choose|b2: Seq<char>, m: nat| s == #[trigger] numbered(b2, m);
    lemma_numbered_unique(b, n, b2, m);
}

proof fn lemma_count_k_step(keys: Seq<Seq<char>>, x: nat)
    ensures
        count_k(keys, x + 1) == count_k(keys, x) + count_eq(keys, x),
    decreases keys.len(),
{
    if keys.len() > 0 {
        lemma_count_k_step(keys.drop_last(), x);
    }
}

proof fn lemma_count_eq_pos(keys: Seq<Seq<char>>, x: nat)
    requires
        in_p(keys, x),
    ensures
        count_eq(keys, x) >= 1,
    decreases keys.len(),
{
    let (i, b) = choose|i: int, b: Seq<char>| #![trigger keys[i], numbered(b, x)] 0 <= i < keys.len() && keys[i] == numbered(b, x);
    if i == keys.len() - 1 {
        lemma_suffix_number(b, x);
    } else {
        assert(keys.drop_last()[i] == keys[i]);
        assert(in_p(keys.drop_last(), x));
        lemma_count_eq_pos(keys.drop_last(), x);
    }
}

proof fn lemma_count_p_le_k(keys: Seq<Seq<char>>, x: nat)
    ensures
        count_p(keys, x) <= count_k(keys, x),
    decreases x,
{
    if x > 0 {
        lemma_count_p_le_k(keys, (x - 1) as nat);
        lemma_count_k_step(keys, (x - 1) as nat);
        if in_p(keys, (x - 1) as nat) {
            lemma_count_eq_pos(keys, (x - 1) as nat);
        }
    }
}

proof fn lemma_count_k_le_len(keys: Seq<Seq<char>>, x: nat)
    ensures
        count_k(keys, x) <= keys.len(),
    decreases keys.len(),
{
    if keys.len() > 0 {
        lemma_count_k_le_len(keys.drop_last(), x);
    }
}

/// Fewer numbers than keys can be the suffix of some key.
pub proof fn lemma_count_p_bound(keys: Seq<Seq<char>>, x: nat)
    ensures
        count_p(keys, x) <= keys.len(),
{
    lemma_count_p_le_k(keys, x);
    lemma_count_k_le_len(keys, x);
}

proof fn lemma_count_p_mono(keys: Seq<Seq<char>>, x: nat, y: nat)
    requires
        x <= y,
    ensures
        count_p(keys, x) <= count_p(keys, y),
    decreases y,
{
    if x < y {
        lemma_count_p_mono(keys, x, (y - 1) as nat);
    }
}

proof fn lemma_count_p_push(keys: Seq<Seq<char>>, s: Seq<char>, x: nat)
    ensures
        count_p(keys, x) <= count_p(keys.push(s), x),
    decreases x,
{
    if x > 0 {
        lemma_count_p_push(keys, s, (x - 1) as nat);
        if in_p(keys, (x - 1) as nat) {
            let (i, b) = choose|i: int, b: Seq<char>| #![trigger keys[i], numbered(b, (x - 1) as nat)] 0 <= i < keys.len() && keys[i] == numbered(b, (x - 1) as nat);
            assert(keys.push(s)[i] == keys[i]);
        }
    }
}

} // verus!

verus! {

/// The position of `s` among the keys, if it is one.
pub open spec fn key_index(keys: Seq<Seq<char>>, s: Seq<char>) -> Option<int> {
    if exists|i: int| 0 <= i < keys.len() && keys[i] == s {
        Some(choose|i: int| 0 <= i < keys.len() && keys[i] == s)
    } else {
        None
    }
}

/// No key occurs twice.
pub open spec fn distinct_keys(keys: Seq<Seq<char>>) -> bool {
    forall|i: int, j: int| 0 <= i < keys.len() && 0 <= j < keys.len() && i != j ==> keys[i] != keys[j]
}

/// What a counter still has ahead of it before the proposals run out.
pub open spec fn headroom(keys: Seq<Seq<char>>, c: u32) -> int {
    keys.len() - count_p(keys, c as nat)
}

/// The total headroom of all counters.
pub open spec fn total_headroom(keys: Seq<Seq<char>>, cs: Seq<u32>) -> int
    decreases cs.len(),
{
    if cs.len() == 0 {
        0
    } else {
        total_headroom(keys, cs.drop_last()) + headroom(keys, cs.last())
    }
}

/// The search for a free name, from the key at `cur`: propose `base_c`
/// with `c` the counter of the current key, advance that counter, and stop
/// when the proposal is not a key, or go on from the key it names.
/// `fuel` bounds the number of steps.
pub open spec fn search(keys: Seq<Seq<char>>, cs: Seq<u32>, base: Seq<char>, cur: int, fuel: nat)
    -> Option<(Seq<char>, Seq<u32>)>
    decreases fuel,
{
    if fuel == 0 {
        None
    } else {
        let c = cs[cur];
        let name = numbered(base, c as nat);
        let cs2 = cs.update(cur, (c + 1) as u32);
        match key_index(keys, name) {
            None => Some((name, cs2)),
            Some(j) => search(keys, cs2, base, j, (fuel - 1) as nat),
        }
    }
}

/// The name that `generate_unique_name` hands out for `base`, with the keys
/// and counters it leaves behind: `base` itself when it is not a key yet
/// (then recorded with counter 0), else the result of the search from it.
pub open spec fn unique_name_spec(keys: Seq<Seq<char>>, cs: Seq<u32>, base: Seq<char>)
    -> (Seq<char>, Seq<Seq<char>>, Seq<u32>)
{
    match key_index(keys, base) {
        None => (base, keys.push(base), cs.push(0u32)),
        Some(i) => match search(keys, cs, base, i, (total_headroom(keys, cs) + 1) as nat) {
            Some((name, cs2)) => (name, keys, cs2),
            None => (base, keys, cs),
        },
    }
}

proof fn lemma_headroom_nonneg(keys: Seq<Seq<char>>, c: u32)
    ensures
        headroom(keys, c) >= 0,
{
    lemma_count_p_bound(keys, c as nat);
}

proof fn lemma_total_headroom_nonneg(keys: Seq<Seq<char>>, cs: Seq<u32>)
    ensures
        total_headroom(keys, cs) >= 0,
    decreases cs.len(),
{
    if cs.len() > 0 {
        lemma_total_headroom_nonneg(keys, cs.drop_last());
        lemma_headroom_nonneg(keys, cs.last());
    }
}

proof fn lemma_total_headroom_update(keys: Seq<Seq<char>>, cs: Seq<u32>, i: int, v: u32)
    requires
        0 <= i < cs.len(),
    ensures
        total_headroom(keys, cs.update(i, v)) == total_headroom(keys, cs) - headroom(keys, cs[i])
            + headroom(keys, v),
    decreases cs.len(),
{
    let cs2 = cs.update(i, v);
    if i == cs.len() - 1 {
        assert(cs2.drop_last() =~= cs.drop_last());
    } else {
        assert(cs2.drop_last() =~= cs.drop_last().update(i, v));
        lemma_total_headroom_update(keys, cs.drop_last(), i, v);
    }
}

/// The names handed out so far (each recorded under the name that was
/// asked for), each with the counter that numbers its next copy.
pub struct UniqueNames {
    keys: Vec<Vec<char>>,
    counters: Vec<u32>,
    calls: Ghost<nat>,
}

impl UniqueNames {
    /// The recorded names, in the order they were first asked for.
    pub closed spec fn key_seq(&self) -> Seq<Seq<char>> {
        self.keys@.map_values(|k: Vec<char>| k@)
    }

    /// The counter of each recorded name.
    pub closed spec fn counter_seq(&self) -> Seq<u32> {
        self.counters@
    }

    /// How many names were asked for.
    pub closed spec fn calls(&self) -> nat {
        self.calls@
    }

    /// Distinct keys, one counter each, and every counter no larger than
    /// the numbers it stepped over plus the names asked for.
    pub closed spec fn wf(&self) -> bool {
        &&& self.keys@.len() == self.counters@.len()
        &&& distinct_keys(self.key_seq())
        &&& forall|i: int| 0 <= i < self.counters@.len() ==>
            #[trigger] self.counters@[i] <= count_p(self.key_seq(), self.counters@[i] as nat) + self.calls@
    }

    /// No counter can be pushed past `u32::MAX` by a search, which steps
    /// a counter over recorded numbers only: every counter plus its
    /// headroom stays below `u32::MAX`.
    pub open spec fn counters_have_room(&self) -> bool {
        forall|i: int| 0 <= i < self.counter_seq().len() ==>
            #[trigger] self.counter_seq()[i] + headroom(self.key_seq(), self.counter_seq()[i]) < u32::MAX
    }

    /// A table that was asked for fewer names than `u32::MAX` less its
    /// recorded names has room in every counter.
    pub proof fn lemma_counters_have_room(&self)
        requires
            self.wf(),
            self.key_seq().len() + self.calls() < u32::MAX,
        ensures
            self.counters_have_room(),
    {
        assert forall|i: int| 0 <= i < self.counter_seq().len() implies
            #[trigger] self.counter_seq()[i] + headroom(self.key_seq(), self.counter_seq()[i]) < u32::MAX by {
            assert(self.counters@[i] <= count_p(self.key_seq(), self.counters@[i] as nat) + self.calls@);
        }
    }

    /// An empty table.
    pub fn new() -> (t: UniqueNames)
        ensures
            t.wf(),
            t.key_seq() == Seq::<Seq<char>>::empty(),
            t.counter_seq() == Seq::<u32>::empty(),
            t.calls() == 0,
    {
        let t = UniqueNames { keys: Vec::new(), counters: Vec::new(), calls: Ghost(0) };
        assert(t.key_seq() =~= Seq::<Seq<char>>::empty());
        t
    }

    /// How many names are recorded.
    pub fn len(&self) -> (n: usize)
        requires
            self.wf(),
        ensures
            n == self.key_seq().len(),
    {
        self.keys.len()
    }

    /// Whether `name` is recorded.
    pub fn contains(&self, name: &str) -> (b: bool)
        requires
            self.wf(),
        ensures
            b == self.key_seq().contains(name@),
    {
        let s = chars_of(name);
        match find_key(&self.keys, &s) {
            Some(_) => true,
            None => false,
        }
    }
}

fn find_key(keys: &Vec<Vec<char>>, s: &Vec<char>) -> (r: Option<usize>)
    requires
        distinct_keys(keys@.map_values(|k: Vec<char>| k@)),
    ensures
        match r {
            Some(i) => i < keys.len() && keys@[i as int]@ == s@
                && key_index(keys@.map_values(|k: Vec<char>| k@), s@) == Some(i as int),
            None => key_index(keys@.map_values(|k: Vec<char>| k@), s@) is None
                && !keys@.map_values(|k: Vec<char>| k@).contains(s@),
        },
{
    let ghost ks = keys@.map_values(|k: Vec<char>| k@);
    let mut i: usize = 0;
    while i < keys.len()
        invariant
            i <= keys.len(),
            ks == keys@.map_values(|k: Vec<char>| k@),
            distinct_keys(ks),
            forall|j: int| 0 <= j < i ==> ks[j] != s@,
        decreases keys.len() - i,
    {
        if chars_eq(&keys[i], s) {
            assert(ks[i as int] == s@);
            let ghost w = choose|w: int| 0 <= w < ks.len() && ks[w] == s@;
            assert(w == i as int) by {
                if w != i as int {
                    assert(ks[w] == ks[i as int]);
                }
            }
            return Some(i);
        }
        i = i + 1;
    }
    assert(!ks.contains(s@)) by {
        if ks.contains(s@) {
            let j = choose|j: int| 0 <= j < ks.len() && ks[j] == s@;
            assert(ks[j] != s@);
        }
    }
    None
}

fn copy_chars(v: &Vec<char>) -> (r: Vec<char>)
    ensures
        r@ == v@,
{
    crate::text::sub_chars(v, 0, v.len())
}

/// A name for an object that is exported under `base_name`: `base_name`
/// itself the first time it is asked for, else `base_name_N` with `N` a
/// counter, the first such proposal that is not a recorded name.  The
/// handed-out numbered names themselves are not recorded.
pub fn generate_unique_name(base_name: &str, unique_names_map: &mut UniqueNames) -> (r: String)
    requires
        old(unique_names_map).wf(),
        old(unique_names_map).counters_have_room(),
    ensures
        final(unique_names_map).wf(),
        final(unique_names_map).calls() == old(unique_names_map).calls() + 1,
        final(unique_names_map).key_seq().len() <= old(unique_names_map).key_seq().len() + 1,
        (r@, final(unique_names_map).key_seq(), final(unique_names_map).counter_seq())
            == unique_name_spec(old(unique_names_map).key_seq(), old(unique_names_map).counter_seq(), base_name@),
        !old(unique_names_map).key_seq().contains(r@),
        final(unique_names_map).key_seq().contains(base_name@),
{
    let base = chars_of(base_name);
    let ghost keys0 = unique_names_map.key_seq();
    let ghost cs0 = unique_names_map.counter_seq();
    let ghost calls0 = unique_names_map.calls();
    match find_key(&unique_names_map.keys, &base) {
        None => {
            let key = copy_chars(&base);
            unique_names_map.keys.push(key);
            unique_names_map.counters.push(0);
            unique_names_map.calls = Ghost(calls0 + 1);
            proof {
                let ks = unique_names_map.key_seq();
                assert(ks =~= keys0.push(base@));
                assert(unique_names_map.counter_seq() =~= cs0.push(0u32));
                assert forall|i: int| 0 <= i < unique_names_map.counters@.len() implies
                    #[trigger] unique_names_map.counters@[i] <= count_p(ks, unique_names_map.counters@[i] as nat) + calls0 + 1 by {
                    if i < cs0.len() {
                        assert(unique_names_map.counters@[i] == cs0[i]);
                        lemma_count_p_push(keys0, base@, cs0[i] as nat);
                    }
                }
                assert(ks[ks.len() - 1] == base@);
            }
            string_from_chars(&base)
        },
        Some(cur0) => {
            let ghost m0 = total_headroom(keys0, cs0);
            let ghost fuel = (m0 + 1) as nat;
            proof { lemma_total_headroom_nonneg(keys0, cs0); }
            let mut cur = cur0;
            let ghost mut k: int = 0;
            loop
                invariant
                    keys0 == old(unique_names_map).key_seq(),
                    base@ == base_name@,
                    cs0 == old(unique_names_map).counter_seq(),
                    calls0 == old(unique_names_map).calls(),
                    unique_names_map.keys@ == old(unique_names_map).keys@,
                    unique_names_map.key_seq() == keys0,
                    distinct_keys(keys0),
                    unique_names_map.counters@.len() == keys0.len(),
                    unique_names_map.calls@ == calls0,
                    cs0.len() == keys0.len(),
                    forall|i: int| 0 <= i < cs0.len() ==> #[trigger] cs0[i] + headroom(keys0, cs0[i]) < u32::MAX,
                    forall|i: int| 0 <= i < cs0.len() ==> #[trigger] unique_names_map.counters@[i] - cs0[i]
                        == count_p(keys0, unique_names_map.counters@[i] as nat) - count_p(keys0, cs0[i] as nat),
                    cur < keys0.len(),
                    keys0[cur as int] == base@ || exists|c: nat| keys0[cur as int] == #[trigger] numbered(base@, c),
                    forall|i: int| 0 <= i < unique_names_map.counters@.len() ==>
                        #[trigger] unique_names_map.counters@[i] <= count_p(keys0, unique_names_map.counters@[i] as nat) + calls0,
                    0 <= k,
                    k + total_headroom(keys0, unique_names_map.counters@) <= m0,
                    search(keys0, unique_names_map.counters@, base@, cur as int, (fuel - k) as nat)
                        == search(keys0, cs0, base@, cur0 as int, fuel),
                    key_index(keys0, base@) == Some(cur0 as int),
                    m0 == total_headroom(keys0, cs0),
                    fuel == m0 + 1,
                decreases total_headroom(keys0, unique_names_map.counters@),
            {
                let c = unique_names_map.counters[cur];
                proof {
                    lemma_count_p_bound(keys0, c as nat);
                    lemma_total_headroom_nonneg(keys0, unique_names_map.counters@);
                    assert(cs0[cur as int] + headroom(keys0, cs0[cur as int]) < u32::MAX);
                    assert(c - cs0[cur as int] == count_p(keys0, c as nat) - count_p(keys0, cs0[cur as int] as nat));
                }
                let mut name = copy_chars(&base);
                name.push('_');
                push_decimal(&mut name, c as usize);
                assert(name@ =~= numbered(base@, c as nat));
                let ghost cs_k = unique_names_map.counters@;
                unique_names_map.counters.set(cur, c + 1);
                assert(unique_names_map.counters@ == cs_k.update(cur as int, (c + 1) as u32));
                proof {
                    lemma_total_headroom_update(keys0, cs_k, cur as int, (c + 1) as u32);
                    lemma_count_p_mono(keys0, c as nat, (c + 1) as nat);
                }
                match find_key(&unique_names_map.keys, &name) {
                    None => {
                        proof {
                            let ks = unique_names_map.key_seq();
                            assert forall|i: int| 0 <= i < unique_names_map.counters@.len() implies
                                #[trigger] unique_names_map.counters@[i] <= count_p(ks, unique_names_map.counters@[i] as nat) + calls0 + 1 by {
                                if i != cur as int {
                                    assert(unique_names_map.counters@[i] == cs_k[i]);
                                }
                            }
                        }
                        unique_names_map.calls = Ghost(calls0 + 1);
                        proof {
                            assert(k <= m0);
                            assert((fuel - k) as nat >= 1);
                            assert(key_index(keys0, name@) is None);
                            assert(search(keys0, cs_k, base@, cur as int, (fuel - k) as nat)
                                == Some((name@, unique_names_map.counters@)));
                            assert(keys0[cur0 as int] == base@);
                            assert(keys0.contains(base@));
                            assert(unique_name_spec(keys0, cs0, base@) == (name@, keys0, unique_names_map.counters@));
                            assert(unique_names_map.key_seq() == keys0);
                        }
                        return string_from_chars(&name);
                    },
                    Some(j) => {
                        proof {
                            assert(keys0[j as int] == numbered(base@, c as nat));
                            assert(in_p(keys0, c as nat));
                            assert(count_p(keys0, (c + 1) as nat) == count_p(keys0, c as nat) + 1);
                            assert(headroom(keys0, (c + 1) as u32) == headroom(keys0, c) - 1);
                            assert(cs_k[cur as int] == c);
                            assert(total_headroom(keys0, unique_names_map.counters@) == total_headroom(keys0, cs_k) - 1);
                            lemma_total_headroom_nonneg(keys0, unique_names_map.counters@);
                            assert forall|i: int| 0 <= i < unique_names_map.counters@.len() implies
                                #[trigger] unique_names_map.counters@[i] <= count_p(keys0, unique_names_map.counters@[i] as nat) + calls0 by {
                                if i != cur as int {
                                    assert(unique_names_map.counters@[i] == cs_k[i]);
                                }
                            }
                            assert forall|i: int| 0 <= i < cs0.len() implies #[trigger] unique_names_map.counters@[i] - cs0[i]
                                == count_p(keys0, unique_names_map.counters@[i] as nat) - count_p(keys0, cs0[i] as nat) by {
                                if i != cur as int {
                                    assert(unique_names_map.counters@[i] == cs_k[i]);
                                }
                            }
                            k = k + 1;
                        }
                        cur = j;
                    },
                }
            }
        },
    }
}

} // verus!
