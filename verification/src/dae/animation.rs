//! Collada animation channel targets.
use vstd::prelude::*;

use crate::text::{
    chars_eq, chars_of, decimal, find_first, first_index,
    lemma_decimal_shape, parse_usize, parse_usize_spec, string_from_chars, sub_chars,
};

verus! {

/// Which part of the targeted property a channel animates.
#[derive(Clone, Copy, Debug, PartialEq, Eq, Structural)]
pub enum TargetComponent {
    /// The complete sampled value (`node/translate`).
    Whole,
    /// `.X`
    X,
    /// `.Y`
    Y,
    /// `.Z`
    Z,
    /// `.ANGLE`
    Angle,
    /// One element of a 4x4 matrix, `column * 4 + row`.
    Matrix(usize),
}

/// A parsed `node/property[selector]` animation target address.
#[derive(Debug, PartialEq, Eq)]
pub struct AnimationTarget {
    pub node: String,
    pub property: String,
    pub component: TargetComponent,
}

/// The component named after a `.` in a target address.
pub open spec fn component_spec(c: Seq<char>) -> Option<TargetComponent> {
    if c == seq!['X'] {
        Some(TargetComponent::X)
    } else if c == seq!['Y'] {
        Some(TargetComponent::Y)
    } else if c == seq!['Z'] {
        Some(TargetComponent::Z)
    } else if c == seq!['A', 'N', 'G', 'L', 'E'] {
        Some(TargetComponent::Angle)
    } else {
        None
    }
}

/// The `matrix(row)(column)` selector part that follows the first `(`.
#[verifier::opaque]
pub open spec fn matrix_selector_spec(after: Seq<char>) -> Option<usize> {
    match first_index(after, ')') {
        None => None,
        Some(c1) => {
            let row = after.take(c1);
            let rest = after.skip(c1 + 1);
            if rest.len() == 0 || rest[0] != '(' {
                None
            } else {
                let rest2 = rest.skip(1);
                match first_index(rest2, ')') {
                    None => None,
                    Some(c2) => {
                        let column = rest2.take(c2);
                        let rest3 = rest2.skip(c2 + 1);
                        match (parse_usize_spec(row), parse_usize_spec(column)) {
                            (Some(r), Some(c)) => if rest3.len() == 0 && r < 4 && c < 4 {
                                Some((c * 4 + r) as usize)
                            } else {
                                None
                            },
                            _ => None,
                        }
                    },
                }
            }
        },
    }
}

/// The property name and component of the part after the `/`.
#[verifier::opaque]
pub open spec fn selector_spec(sel: Seq<char>) -> Option<(Seq<char>, TargetComponent)> {
    match first_index(sel, '(') {
        Some(open) => match matrix_selector_spec(sel.skip(open + 1)) {
            Some(m) => Some((sel.take(open), TargetComponent::Matrix(m))),
            None => None,
        },
        None => match first_index(sel, '.') {
            Some(dot) => match component_spec(sel.skip(dot + 1)) {
                Some(c) => Some((sel.take(dot), c)),
                None => None,
            },
            None => Some((sel, TargetComponent::Whole)),
        },
    }
}

/// The node, property and component a target address names, if it is one
/// of `node/property`, `node/property.C` (`C` one of `X`, `Y`, `Z`,
/// `ANGLE`) or `node/property(row)(column)` with row and column below 4.
pub open spec fn target_spec(s: Seq<char>) -> Option<(Seq<char>, Seq<char>, TargetComponent)> {
    match first_index(s, '/') {
        None => None,
        Some(k) => {
            let node = s.take(k);
            let sel = s.skip(k + 1);
            if node.len() == 0 || sel.len() == 0 || sel.contains('/') {
                None
            } else {
                match selector_spec(sel) {
                    Some((p, c)) => if p.len() == 0 { None } else { Some((node, p, c)) },
                    None => None,
                }
            }
        },
    }
}

fn contains_char(v: &Vec<char>, c: char) -> (r: bool)
    ensures
        r == v@.contains(c),
{
    let mut i: usize = 0;
    while i < v.len()
        invariant
            i <= v.len(),
            forall|j: int| 0 <= j < i ==> v@[j] != c,
        decreases v.len() - i,
    {
        if v[i] == c {
            assert(v@[i as int] == c);
            return true;
        }
        i = i + 1;
    }
    false
}

fn component_of(c: &Vec<char>) -> (r: Option<TargetComponent>)
    ensures
        r == component_spec(c@),
{
    let x = vec!['X'];
    let y = vec!['Y'];
    let z = vec!['Z'];
    let angle = vec!['A', 'N', 'G', 'L', 'E'];
    assert(x@ =~= seq!['X']);
    assert(y@ =~= seq!['Y']);
    assert(z@ =~= seq!['Z']);
    assert(angle@ =~= seq!['A', 'N', 'G', 'L', 'E']);
    if chars_eq(c, &x) {
        Some(TargetComponent::X)
    } else if chars_eq(c, &y) {
        Some(TargetComponent::Y)
    } else if chars_eq(c, &z) {
        Some(TargetComponent::Z)
    } else if chars_eq(c, &angle) {
        Some(TargetComponent::Angle)
    } else {
        None
    }
}

fn matrix_selector(after: &Vec<char>) -> (r: Option<usize>)
    ensures
        r == matrix_selector_spec(after@),
{
    reveal(matrix_selector_spec);
    let c1 = match find_first(after, ')') {
        None => return None,
        Some(c1) => c1,
    };
    let row = sub_chars(after, 0, c1);
    let rest = sub_chars(after, c1 + 1, after.len());
    assert(row@ =~= after@.take(c1 as int));
    assert(rest@ =~= after@.skip(c1 + 1));
    if rest.len() == 0 || rest[0] != '(' {
        return None;
    }
    let rest2 = sub_chars(&rest, 1, rest.len());
    assert(rest2@ =~= rest@.skip(1));
    let c2 = match find_first(&rest2, ')') {
        None => return None,
        Some(c2) => c2,
    };
    let column = sub_chars(&rest2, 0, c2);
    let rest3_len = rest2.len() - (c2 + 1);
    assert(column@ =~= rest2@.take(c2 as int));
    assert(rest2@.skip(c2 + 1).len() == rest3_len);
    match (parse_usize(&row), parse_usize(&column)) {
        (Some(r), Some(c)) => if rest3_len == 0 && r < 4 && c < 4 {
            Some(c * 4 + r)
        } else {
            None
        },
        _ => None,
    }
}

impl AnimationTarget {
    /// Parses a Collada animation target address.
    ///
    /// Collada addresses animation targets as `node/property`, with an
    /// optional component selection: `node/translate` applies the complete
    /// sampled value, `node/translate.X` selects `X`, `Y`, `Z` or `ANGLE`,
    /// and `node/matrix(2)(3)` selects one matrix element by row and column.
    /// Targets with missing or additional path segments are refused.
    pub fn try_from(target: &str) -> (r: Result<AnimationTarget, ()>)
        ensures
            match r {
                Ok(t) => target_spec(target@) == Some((t.node@, t.property@, t.component)),
                Err(_) => target_spec(target@) is None,
            },
    {
        reveal(selector_spec);
        let s = chars_of(target);
        let k = match find_first(&s, '/') {
            None => return Err(()),
            Some(k) => k,
        };
        let node = sub_chars(&s, 0, k);
        let sel = sub_chars(&s, k + 1, s.len());
        assert(node@ =~= s@.take(k as int));
        assert(sel@ =~= s@.skip(k + 1));
        if node.len() == 0 || sel.len() == 0 || contains_char(&sel, '/') {
            return Err(());
        }
        let (property, component) = match find_first(&sel, '(') {
            Some(open) => {
                let after = sub_chars(&sel, open + 1, sel.len());
                assert(after@ =~= sel@.skip(open + 1));
                match matrix_selector(&after) {
                    Some(m) => {
                        let p = sub_chars(&sel, 0, open);
                        assert(p@ =~= sel@.take(open as int));
                        (p, TargetComponent::Matrix(m))
                    },
                    None => return Err(()),
                }
            },
            None => match find_first(&sel, '.') {
                Some(dot) => {
                    let comp = sub_chars(&sel, dot + 1, sel.len());
                    assert(comp@ =~= sel@.skip(dot + 1));
                    match component_of(&comp) {
                        Some(c) => {
                            let p = sub_chars(&sel, 0, dot);
                            assert(p@ =~= sel@.take(dot as int));
                            (p, c)
                        },
                        None => return Err(()),
                    }
                },
                None => (sel, TargetComponent::Whole),
            },
        };
        if property.len() == 0 {
            return Err(());
        }
        Ok(AnimationTarget {
            node: string_from_chars(&node),
            property: string_from_chars(&property),
            component,
        })
    }
}

} // verus!

verus! {

/// The selector text that names a component after the property.
pub open spec fn component_suffix(c: TargetComponent) -> Seq<char> {
    match c {
        TargetComponent::Whole => Seq::empty(),
        TargetComponent::X => seq!['.', 'X'],
        TargetComponent::Y => seq!['.', 'Y'],
        TargetComponent::Z => seq!['.', 'Z'],
        TargetComponent::Angle => seq!['.', 'A', 'N', 'G', 'L', 'E'],
        TargetComponent::Matrix(i) => seq!['('] + decimal((i % 4) as nat) + seq![')', '(']
            + decimal((i / 4) as nat) + seq![')'],
    }
}

/// The address `node/property[selector]` that names a target.
pub open spec fn target_address(node: Seq<char>, property: Seq<char>, c: TargetComponent) -> Seq<char> {
    node + seq!['/'] + property + component_suffix(c)
}

proof fn lemma_digits_free_of(n: nat, c: char)
    requires
        !crate::text::is_digit(c),
    ensures
        !decimal(n).contains(c),
{
    lemma_decimal_shape(n);
    if decimal(n).contains(c) {
        let k = choose|k: int| 0 <= k < decimal(n).len() && decimal(n)[k] == c;
        assert(crate::text::is_digit(decimal(n)[k]));
    }
}

proof fn lemma_matrix_selector(i: usize)
    requires
        i < 16,
    ensures
        matrix_selector_spec(decimal((i % 4) as nat) + seq![')', '('] + decimal((i / 4) as nat) + seq![')'])
            == Some(i),
{
    reveal(matrix_selector_spec);
    let r = (i % 4) as nat;
    let col = (i / 4) as nat;
    let dr = decimal(r);
    let dc = decimal(col);
    let after = dr + seq![')', '('] + dc + seq![')'];
    lemma_digits_free_of(r, ')');
    lemma_digits_free_of(col, ')');
    assert forall|j: int| 0 <= j < dr.len() implies after[j] != ')' by {
        assert(after[j] == dr[j]);
        if dr[j] == ')' { assert(dr.contains(')')); }
    }
    crate::text::lemma_first_index_at(after, ')', dr.len() as int);
    assert(after.take(dr.len() as int) =~= dr);
    let rest = after.skip(dr.len() + 1int);
    assert(rest =~= seq!['('] + dc + seq![')']);
    let rest2 = rest.skip(1);
    assert(rest2 =~= dc + seq![')']);
    assert forall|j: int| 0 <= j < dc.len() implies rest2[j] != ')' by {
        assert(rest2[j] == dc[j]);
        if dc[j] == ')' { assert(dc.contains(')')); }
    }
    crate::text::lemma_first_index_at(rest2, ')', dc.len() as int);
    assert(rest2.take(dc.len() as int) =~= dc);
    assert(rest2.skip(dc.len() + 1int).len() == 0);
    crate::text::lemma_parse_decimal(r);
    crate::text::lemma_parse_decimal(col);
    assert(col * 4 + r == i);
}

proof fn lemma_suffix_no_slash(c: TargetComponent)
    ensures
        !component_suffix(c).contains('/'),
{
    let suffix = component_suffix(c);
    if let TargetComponent::Matrix(i) = c {
        lemma_digits_free_of((i % 4) as nat, '/');
        lemma_digits_free_of((i / 4) as nat, '/');
        if suffix.contains('/') {
            let k = choose|k: int| 0 <= k < suffix.len() && suffix[k] == '/';
            let dr = decimal((i % 4) as nat);
            let dc = decimal((i / 4) as nat);
            if 1 <= k < 1 + dr.len() {
                assert(dr[k - 1] == suffix[k]);
                assert(dr.contains('/'));
            } else if 3 + dr.len() <= k < 3 + dr.len() + dc.len() {
                assert(dc[k - 3 - dr.len()] == suffix[k]);
                assert(dc.contains('/'));
            }
        }
    } else {
        if suffix.contains('/') {
            let k = choose|k: int| 0 <= k < suffix.len() && suffix[k] == '/';
        }
    }
}

proof fn lemma_concat_free_of(a: Seq<char>, b: Seq<char>, c: char)
    requires
        !a.contains(c),
        !b.contains(c),
    ensures
        !(a + b).contains(c),
{
    if (a + b).contains(c) {
        let k = choose|k: int| 0 <= k < (a + b).len() && (a + b)[k] == c;
        if k < a.len() {
            assert(a[k] == c);
        } else {
            assert(b[k - a.len()] == c);
        }
    }
}

proof fn lemma_selector_matrix(property: Seq<char>, i: usize)
    requires
        !property.contains('('),
        i < 16,
    ensures
        selector_spec(property + component_suffix(TargetComponent::Matrix(i)))
            == Some((property, TargetComponent::Matrix(i))),
{
    reveal(selector_spec);
    let sel = property + component_suffix(TargetComponent::Matrix(i));
    assert forall|j: int| 0 <= j < property.len() implies sel[j] != '(' by {
        assert(sel[j] == property[j]);
        if property[j] == '(' { assert(property.contains('(')); }
    }
    crate::text::lemma_first_index_at(sel, '(', property.len() as int);
    assert(sel.skip(property.len() + 1int) =~= decimal((i % 4) as nat) + seq![')', '(']
        + decimal((i / 4) as nat) + seq![')']);
    lemma_matrix_selector(i);
    assert(sel.take(property.len() as int) =~= property);
}

proof fn lemma_selector_dotted(property: Seq<char>, c: TargetComponent)
    requires
        !property.contains('('),
        !property.contains('.'),
        c == TargetComponent::X || c == TargetComponent::Y || c == TargetComponent::Z
            || c == TargetComponent::Angle,
    ensures
        selector_spec(property + component_suffix(c)) == Some((property, c)),
{
    reveal(selector_spec);
    let suffix = component_suffix(c);
    let sel = property + suffix;
    assert(!suffix.contains('(')) by {
        if suffix.contains('(') {
            let k = choose|k: int| 0 <= k < suffix.len() && suffix[k] == '(';
        }
    }
    lemma_concat_free_of(property, suffix, '(');
    crate::text::lemma_first_index_none(sel, '(');
    assert forall|j: int| 0 <= j < property.len() implies sel[j] != '.' by {
        assert(sel[j] == property[j]);
        if property[j] == '.' { assert(property.contains('.')); }
    }
    crate::text::lemma_first_index_at(sel, '.', property.len() as int);
    assert(sel.take(property.len() as int) =~= property);
    let comp = sel.skip(property.len() + 1int);
    if c == TargetComponent::X {
        assert(comp =~= seq!['X']);
    } else if c == TargetComponent::Y {
        assert(comp =~= seq!['Y']);
        assert(comp != seq!['X']) by { assert(comp[0] != seq!['X'][0]); }
    } else if c == TargetComponent::Z {
        assert(comp =~= seq!['Z']);
        assert(comp != seq!['X']) by { assert(comp[0] != seq!['X'][0]); }
        assert(comp != seq!['Y']) by { assert(comp[0] != seq!['Y'][0]); }
    } else {
        assert(comp =~= seq!['A', 'N', 'G', 'L', 'E']);
        assert(comp.len() == 5);
        assert(comp != seq!['X']) by { assert(seq!['X'].len() == 1); }
        assert(comp != seq!['Y']) by { assert(seq!['Y'].len() == 1); }
        assert(comp != seq!['Z']) by { assert(seq!['Z'].len() == 1); }
    }
    assert(component_spec(comp) == Some(c));
}

proof fn lemma_selector(property: Seq<char>, c: TargetComponent)
    requires
        !property.contains('/'),
        !property.contains('('),
        !property.contains('.'),
        c matches TargetComponent::Matrix(i) ==> i < 16,
    ensures
        selector_spec(property + component_suffix(c)) == Some((property, c)),
        !(property + component_suffix(c)).contains('/'),
{
    lemma_suffix_no_slash(c);
    lemma_concat_free_of(property, component_suffix(c), '/');
    match c {
        TargetComponent::Matrix(i) => {
            lemma_selector_matrix(property, i);
        },
        TargetComponent::Whole => {
            reveal(selector_spec);
            let sel = property + component_suffix(c);
            assert(sel =~= property);
            crate::text::lemma_first_index_none(sel, '(');
            crate::text::lemma_first_index_none(sel, '.');
        },
        _ => {
            lemma_selector_dotted(property, c);
        },
    }
}

/// Parsing the address of a target gives that target back: every node
/// name without `/`, every property name without `/`, `(` or `.`, and
/// every component (a matrix element below 16) round-trip.
pub proof fn lemma_target_address_roundtrip(node: Seq<char>, property: Seq<char>, c: TargetComponent)
    requires
        node.len() > 0,
        !node.contains('/'),
        property.len() > 0,
        !property.contains('/'),
        !property.contains('('),
        !property.contains('.'),
        c matches TargetComponent::Matrix(i) ==> i < 16,
    ensures
        target_spec(target_address(node, property, c)) == Some((node, property, c)),
{
    let s = target_address(node, property, c);
    let sel = property + component_suffix(c);
    lemma_selector(property, c);
    assert(s =~= node + (seq!['/'] + sel));
    assert forall|j: int| 0 <= j < node.len() implies s[j] != '/' by {
        assert(s[j] == node[j]);
        if node[j] == '/' { assert(node.contains('/')); }
    }
    crate::text::lemma_first_index_at(s, '/', node.len() as int);
    assert(s.take(node.len() as int) =~= node);
    assert(s.skip(node.len() + 1int) =~= sel);
}

proof fn lemma_exists_first(s: Seq<char>, c: char, k: int)
    requires
        0 <= k < s.len(),
        s[k] == c,
    ensures
        exists|w: int| 0 <= w < s.len() && s[w] == c && (forall|j: int| 0 <= j < w ==> s[j] != c),
    decreases k,
{
    if exists|j: int| 0 <= j < k && s[j] == c {
        let j = choose|j: int| 0 <= j < k && s[j] == c;
        lemma_exists_first(s, c, j);
    } else {
        assert(0 <= k < s.len() && s[k] == c && (forall|j: int| 0 <= j < k ==> s[j] != c));
    }
}

proof fn lemma_first_index_props(s: Seq<char>, c: char)
    ensures
        match first_index(s, c) {
            Some(k) => 0 <= k < s.len() && s[k] == c && !s.take(k).contains(c),
            None => !s.contains(c),
        },
{
    if exists|k: int| 0 <= k < s.len() && s[k] == c {
        let k0 = choose|k: int| 0 <= k < s.len() && s[k] == c;
        lemma_exists_first(s, c, k0);
        let k = first_index(s, c)->0;
        assert(0 <= k < s.len() && s[k] == c && (forall|j: int| 0 <= j < k ==> s[j] != c));
        if s.take(k).contains(c) {
            let j = choose|j: int| 0 <= j < s.take(k).len() && s.take(k)[j] == c;
            assert(s[j] == c);
        }
    } else {
        if s.contains(c) {
            let j = choose|j: int| 0 <= j < s.len() && s[j] == c;
        }
    }
}

/// The selector and the parsed target of a target that parses.
proof fn lemma_target_split(s: Seq<char>)
    requires
        target_spec(s) is Some,
    ensures
        ({
            let k = first_index(s, '/')->0;
            let (n, p, c) = target_spec(s)->0;
            let sel = s.skip(k + 1);
            &&& first_index(s, '/') is Some
            &&& n == s.take(k)
            &&& s == n + seq!['/'] + sel
            &&& n.len() > 0 && !n.contains('/')
            &&& !sel.contains('/')
            &&& selector_spec(sel) == Some((p, c))
            &&& p.len() > 0
        }),
{
    lemma_first_index_props(s, '/');
    let k = first_index(s, '/')->0;
    assert(s =~= s.take(k) + seq!['/'] + s.skip(k + 1));
}

proof fn lemma_prefix_free(sel: Seq<char>, m: int, x: char)
    requires
        0 <= m <= sel.len(),
        !sel.contains(x),
    ensures
        !sel.take(m).contains(x),
{
    if sel.take(m).contains(x) {
        let j = choose|j: int| 0 <= j < sel.take(m).len() && sel.take(m)[j] == x;
        assert(sel[j] == x);
    }
}

proof fn lemma_split_at(s: Seq<char>, k: int)
    requires
        0 <= k < s.len(),
    ensures
        s == s.take(k) + seq![s[k]] + s.skip(k + 1),
{
    assert(s =~= s.take(k) + seq![s[k]] + s.skip(k + 1));
}

proof fn lemma_join_matrix(after: Seq<char>, row: Seq<char>, rest: Seq<char>, rest2: Seq<char>, column: Seq<char>, rest3: Seq<char>)
    requires
        after == row + seq![')'] + rest,
        rest == rest.take(0) + seq!['('] + rest2,
        rest2 == column + seq![')'] + rest3,
        rest3.len() == 0,
    ensures
        after == row + seq![')', '('] + column + seq![')'],
{
    assert(rest.take(0) =~= Seq::<char>::empty());
    assert(rest3 =~= Seq::<char>::empty());
    assert(after =~= row + seq![')', '('] + column + seq![')']);
}

#[verifier::spinoff_prover]
proof fn lemma_matrix_selector_sound(after: Seq<char>, i: usize)
    requires
        matrix_selector_spec(after) == Some(i),
    ensures
        i < 16,
        exists|r: Seq<char>, k: Seq<char>| {
            &&& parse_usize_spec(r) == Some((i % 4) as nat)
            &&& parse_usize_spec(k) == Some((i / 4) as nat)
            &&& after == r + seq![')', '('] + k + seq![')']
        },
{
    lemma_first_index_props(after, ')');
    assert(first_index(after, ')') is Some) by {
        reveal(matrix_selector_spec);
    }
    let c1 = first_index(after, ')')->0;
    let row = after.take(c1);
    let rest = after.skip(c1 + 1);
    assert(rest.len() > 0 && rest[0] == '(') by {
        reveal(matrix_selector_spec);
    }
    let rest2 = rest.skip(1);
    lemma_first_index_props(rest2, ')');
    assert(first_index(rest2, ')') is Some) by {
        reveal(matrix_selector_spec);
    }
    let c2 = first_index(rest2, ')')->0;
    let column = rest2.take(c2);
    let rest3 = rest2.skip(c2 + 1);
    let pr = parse_usize_spec(row);
    let pc = parse_usize_spec(column);
    assert(pr is Some && pc is Some && rest3.len() == 0 && pr->0 < 4 && pc->0 < 4
        && i == (pc->0 * 4 + pr->0) as usize) by {
        reveal(matrix_selector_spec);
    }
    let rv = pr->0;
    let cv = pc->0;
    lemma_split_at(after, c1);
    lemma_split_at(rest, 0);
    lemma_split_at(rest2, c2);
    lemma_join_matrix(after, row, rest, rest2, column, rest3);
    assert((cv * 4 + rv) % 4 == rv && (cv * 4 + rv) / 4 == cv && cv * 4 + rv < 16) by (nonlinear_arith)
        requires
            rv < 4,
            cv < 4,
    ;
    assert(i as int == cv * 4 + rv);
    assert(parse_usize_spec(row) == Some((i % 4) as nat));
    assert(parse_usize_spec(column) == Some((i / 4) as nat));
}

#[verifier::spinoff_prover]
proof fn lemma_matrix_case(sel: Seq<char>, p: Seq<char>, i: usize)
    requires
        !sel.contains('/'),
        selector_spec(sel) == Some((p, TargetComponent::Matrix(i))),
    ensures
        !p.contains('/') && !p.contains('('),
        i < 16,
        exists|r: Seq<char>, k: Seq<char>| {
            &&& parse_usize_spec(r) == Some((i % 4) as nat)
            &&& parse_usize_spec(k) == Some((i / 4) as nat)
            &&& sel == p + seq!['('] + r + seq![')', '('] + k + seq![')']
        },
{
    reveal(selector_spec);
    lemma_first_index_props(sel, '(');
    lemma_first_index_props(sel, '.');
    assert(first_index(sel, '(') is Some) by {
        if first_index(sel, '(') is None {
            match first_index(sel, '.') {
                Some(d) => {},
                None => {},
            }
        }
    }
    let open = first_index(sel, '(')->0;
    let after = sel.skip(open + 1);
    assert(matrix_selector_spec(after) == Some(i));
    assert(p == sel.take(open));
    lemma_matrix_selector_sound(after, i);
    let (r, k) = choose|r: Seq<char>, k: Seq<char>| {
        &&& parse_usize_spec(r) == Some((i % 4) as nat)
        &&& parse_usize_spec(k) == Some((i / 4) as nat)
        &&& after == r + seq![')', '('] + k + seq![')']
    };
    assert(sel =~= p + seq!['('] + after);
    lemma_prefix_free(sel, open, '/');
    assert(sel =~= p + seq!['('] + r + seq![')', '('] + k + seq![')']);
}

proof fn lemma_plain_case(sel: Seq<char>, p: Seq<char>, c: TargetComponent)
    requires
        !sel.contains('/'),
        selector_spec(sel) == Some((p, c)),
        c !is Matrix,
    ensures
        !p.contains('/') && !p.contains('(') && !p.contains('.'),
        sel == p + component_suffix(c),
{
    reveal(selector_spec);
    lemma_first_index_props(sel, '(');
    lemma_first_index_props(sel, '.');
    match first_index(sel, '(') {
        Some(open) => {
            reveal(matrix_selector_spec);
        },
        None => match first_index(sel, '.') {
            Some(dot) => {
                let tail = sel.skip(dot + 1);
                assert(sel =~= p + seq!['.'] + tail);
                lemma_prefix_free(sel, dot, '/');
                lemma_prefix_free(sel, dot, '(');
                assert(seq!['.'] + tail =~= component_suffix(c));
            },
            None => {
                assert(sel + component_suffix(c) =~= sel);
            },
        },
    }
}

/// Only addresses of the documented shapes parse: a target that parses
/// has a non-empty node name without `/`, a non-empty property name
/// without `/` or `(`; a component other than a matrix element is spelled
/// out after the property exactly as `target_address` writes it (and the
/// property then has no `.`); a matrix element below 16 is written as
/// `property(row)(column)`, with its row and column as decimal texts.
pub proof fn lemma_target_spec_sound(s: Seq<char>)
    requires
        target_spec(s) is Some,
    ensures
        ({
            let (n, p, c) = target_spec(s)->0;
            &&& n.len() > 0 && !n.contains('/')
            &&& p.len() > 0 && !p.contains('/') && !p.contains('(')
            &&& (c !is Matrix ==> !p.contains('.') && s == target_address(n, p, c))
            &&& (c matches TargetComponent::Matrix(i) ==> i < 16 && exists|r: Seq<char>, k: Seq<char>| {
                &&& parse_usize_spec(r) == Some((i % 4) as nat)
                &&& parse_usize_spec(k) == Some((i / 4) as nat)
                &&& s == n + seq!['/'] + p + seq!['('] + r + seq![')', '('] + k + seq![')']
            })
        }),
{
    lemma_target_split(s);
    let k = first_index(s, '/')->0;
    let (n, p, c) = target_spec(s)->0;
    let sel = s.skip(k + 1);
    match c {
        TargetComponent::Matrix(i) => {
            lemma_matrix_case(sel, p, i);
            let (r, kk) = choose|r: Seq<char>, kk: Seq<char>| {
                &&& parse_usize_spec(r) == Some((i % 4) as nat)
                &&& parse_usize_spec(kk) == Some((i / 4) as nat)
                &&& sel == p + seq!['('] + r + seq![')', '('] + kk + seq![')']
            };
            assert(s =~= n + seq!['/'] + p + seq!['('] + r + seq![')', '('] + kk + seq![')']);
        },
        _ => {
            lemma_plain_case(sel, p, c);
            assert(s =~= target_address(n, p, c));
        },
    }
}

proof fn lemma_parsed_free_of(r: Seq<char>, c: char)
    requires
        parse_usize_spec(r) is Some,
        !crate::text::is_digit(c),
        c != '+',
    ensures
        !r.contains(c),
{
    if r.contains(c) {
        let k = choose|k: int| 0 <= k < r.len() && r[k] == c;
        if r.len() > 0 && r[0] == '+' {
            let t = r.drop_first();
            assert(k != 0);
            assert(t[k - 1] == c);
            assert(crate::text::is_digit(t[k - 1]));
        } else {
            assert(crate::text::is_digit(r[k]));
        }
    }
}

proof fn lemma_matrix_selector_texts(r: Seq<char>, k: Seq<char>, i: usize)
    requires
        parse_usize_spec(r) == Some((i % 4) as nat),
        parse_usize_spec(k) == Some((i / 4) as nat),
        i < 16,
    ensures
        matrix_selector_spec(r + seq![')', '('] + k + seq![')']) == Some(i),
{
    reveal(matrix_selector_spec);
    let after = r + seq![')', '('] + k + seq![')'];
    lemma_parsed_free_of(r, ')');
    lemma_parsed_free_of(k, ')');
    assert forall|j: int| 0 <= j < r.len() implies after[j] != ')' by {
        assert(after[j] == r[j]);
        if r[j] == ')' { assert(r.contains(')')); }
    }
    crate::text::lemma_first_index_at(after, ')', r.len() as int);
    assert(after.take(r.len() as int) =~= r);
    let rest = after.skip(r.len() + 1int);
    assert(rest =~= seq!['('] + k + seq![')']);
    let rest2 = rest.skip(1);
    assert(rest2 =~= k + seq![')']);
    assert forall|j: int| 0 <= j < k.len() implies rest2[j] != ')' by {
        assert(rest2[j] == k[j]);
        if k[j] == ')' { assert(k.contains(')')); }
    }
    crate::text::lemma_first_index_at(rest2, ')', k.len() as int);
    assert(rest2.take(k.len() as int) =~= k);
    assert(rest2.skip(k.len() + 1int).len() == 0);
    assert((i / 4) * 4 + i % 4 == i);
}

proof fn lemma_matrix_sel_free(p: Seq<char>, r: Seq<char>, k: Seq<char>, c: char)
    requires
        !p.contains(c),
        !r.contains(c),
        !k.contains(c),
        c != '(',
        c != ')',
    ensures
        !(p + seq!['('] + (r + seq![')', '('] + k + seq![')'])).contains(c),
{
    assert(!seq!['('].contains(c)) by { if seq!['('].contains(c) { assert(seq!['('][0] == c); } }
    assert(!seq![')', '('].contains(c)) by {
        if seq![')', '('].contains(c) {
            let j = choose|j: int| 0 <= j < 2 && seq![')', '('][j] == c;
        }
    }
    assert(!seq![')'].contains(c)) by { if seq![')'].contains(c) { assert(seq![')'][0] == c); } }
    lemma_concat_free_of(p, seq!['('], c);
    lemma_concat_free_of(r, seq![')', '('], c);
    lemma_concat_free_of(r + seq![')', '('], k, c);
    lemma_concat_free_of(r + seq![')', '('] + k, seq![')'], c);
    lemma_concat_free_of(p + seq!['('], r + seq![')', '('] + k + seq![')'], c);
}

proof fn lemma_selector_matrix_texts(p: Seq<char>, r: Seq<char>, k: Seq<char>, i: usize)
    requires
        !p.contains('/'),
        !p.contains('('),
        parse_usize_spec(r) == Some((i % 4) as nat),
        parse_usize_spec(k) == Some((i / 4) as nat),
        i < 16,
    ensures
        selector_spec(p + seq!['('] + (r + seq![')', '('] + k + seq![')']))
            == Some((p, TargetComponent::Matrix(i))),
        !(p + seq!['('] + (r + seq![')', '('] + k + seq![')'])).contains('/'),
{
    reveal(selector_spec);
    let after = r + seq![')', '('] + k + seq![')'];
    let sel = p + seq!['('] + after;
    lemma_parsed_free_of(r, '/');
    lemma_parsed_free_of(k, '/');
    lemma_matrix_sel_free(p, r, k, '/');
    assert forall|j: int| 0 <= j < p.len() implies sel[j] != '(' by {
        assert(sel[j] == p[j]);
        if p[j] == '(' { assert(p.contains('(')); }
    }
    crate::text::lemma_first_index_at(sel, '(', p.len() as int);
    assert(sel.skip(p.len() + 1int) =~= after);
    assert(sel.take(p.len() as int) =~= p);
    lemma_matrix_selector_texts(r, k, i);
}

proof fn lemma_target_matrix_texts(n: Seq<char>, p: Seq<char>, r: Seq<char>, k: Seq<char>, i: usize)
    requires
        n.len() > 0,
        !n.contains('/'),
        p.len() > 0,
        !p.contains('/'),
        !p.contains('('),
        parse_usize_spec(r) == Some((i % 4) as nat),
        parse_usize_spec(k) == Some((i / 4) as nat),
        i < 16,
    ensures
        target_spec(n + seq!['/'] + p + seq!['('] + r + seq![')', '('] + k + seq![')'])
            == Some((n, p, TargetComponent::Matrix(i))),
{
    let sel = p + seq!['('] + (r + seq![')', '('] + k + seq![')']);
    let s = n + seq!['/'] + p + seq!['('] + r + seq![')', '('] + k + seq![')'];
    lemma_selector_matrix_texts(p, r, k, i);
    assert(s =~= n + (seq!['/'] + sel));
    assert forall|j: int| 0 <= j < n.len() implies s[j] != '/' by {
        assert(s[j] == n[j]);
        if n[j] == '/' { assert(n.contains('/')); }
    }
    crate::text::lemma_first_index_at(s, '/', n.len() as int);
    assert(s.take(n.len() as int) =~= n);
    assert(s.skip(n.len() + 1int) =~= sel);
}

/// Whether `s` is the address of node `n`, property `p` and component `c`
/// in the grammar of animation targets: `n` non-empty and free of `/`; `p`
/// non-empty and free of `/` and `(`; then either `n/p(r)(k)` for a matrix
/// element, `r` and `k` texts that parse as decimal numbers (an optional
/// `+`, then digits) of its row and column, both below 4; or, with `p`
/// free of `.`, `n/p.C` for `C` one of `X`, `Y`, `Z`, `ANGLE`, or `n/p`
/// for the whole value.
pub open spec fn is_target_address(s: Seq<char>, n: Seq<char>, p: Seq<char>, c: TargetComponent) -> bool {
    &&& n.len() > 0 && !n.contains('/')
    &&& p.len() > 0 && !p.contains('/') && !p.contains('(')
    &&& match c {
        TargetComponent::Matrix(i) => i < 16 && exists|r: Seq<char>, k: Seq<char>| {
            &&& parse_usize_spec(r) == Some((i % 4) as nat)
            &&& parse_usize_spec(k) == Some((i / 4) as nat)
            &&& s == n + seq!['/'] + p + seq!['('] + r + seq![')', '('] + k + seq![')']
        },
        _ => !p.contains('.') && s == target_address(n, p, c),
    }
}

/// The grammar of animation targets, exactly: a text parses as the target
/// of node `n`, property `p` and component `c` if and only if it is that
/// target's address in the grammar (see `is_target_address`).
pub proof fn lemma_target_grammar(s: Seq<char>, n: Seq<char>, p: Seq<char>, c: TargetComponent)
    ensures
        target_spec(s) == Some((n, p, c)) <==> is_target_address(s, n, p, c),
{
    if target_spec(s) == Some((n, p, c)) {
        lemma_target_spec_sound(s);
    }
    if is_target_address(s, n, p, c) {
        match c {
            TargetComponent::Matrix(i) => {
                let (r, k) = choose|r: Seq<char>, k: Seq<char>| {
                    &&& parse_usize_spec(r) == Some((i % 4) as nat)
                    &&& parse_usize_spec(k) == Some((i / 4) as nat)
                    &&& s == n + seq!['/'] + p + seq!['('] + r + seq![')', '('] + k + seq![')']
                };
                lemma_target_matrix_texts(n, p, r, k, i);
            },
            _ => {
                lemma_target_address_roundtrip(n, p, c);
            },
        }
    }
}

} // verus!
