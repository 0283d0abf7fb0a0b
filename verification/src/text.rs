//! Small string operations on character sequences.

use vstd::prelude::*;
use vstd::std_specs::iter::IteratorSpec;
use crate::model::strings_view;

verus! {

/// `String::push`: appends one character.
#[verifier::external_body]
pub(crate) fn push_char(s: &mut String, c: char)
    ensures
        final(s)@ == old(s)@.push(c),
{
    s.push(c);
}

/// `String::pop`: removes the last character, if there is one.
#[verifier::external_body]
pub(crate) fn pop_char(s: &mut String) -> (c: Option<char>)
    ensures
        old(s)@.len() == 0 ==> c is None && final(s)@ == old(s)@,
        old(s)@.len() > 0 ==> c == Some(old(s)@.last()) && final(s)@ == old(s)@.drop_last(),
{
    s.pop()
}

/// The sequence without its last element, or the empty sequence unchanged.
pub open spec fn drop_last_if_any(s: Seq<char>) -> Seq<char> {
    if s.len() == 0 {
        s
    } else {
        s.drop_last()
    }
}

/// The parts written one after another with `sep` between two neighbours.
pub open spec fn joined(parts: Seq<Seq<char>>, sep: Seq<char>) -> Seq<char>
    decreases parts.len(),
{
    if parts.len() == 0 {
        Seq::empty()
    } else if parts.len() == 1 {
        parts[0]
    } else {
        joined(parts.drop_last(), sep) + sep + parts.last()
    }
}


/// The characters of a string, one by one.
pub fn chars_of(s: &str) -> (chars: Vec<char>)
    ensures
        chars@ == s@,
{
    broadcast use vstd::string::group_string_axioms;
    let mut it = s.chars();
    let mut chars: Vec<char> = Vec::new();
    loop
        invariant
            chars@ + it.remaining() == s@,
        ensures
            chars@ == s@,
        decreases s@.len() - chars@.len(),
    {
        match it.next() {
            Some(c) => {
                chars.push(c);
            },
            None => {
                assert(it.remaining().len() == 0);
                assert(chars@ + it.remaining() =~= chars@);
                break;
            },
        }
    }
    chars
}


/// Lexicographic order of character sequences from position `i` on, given
/// that the positions before `i` agree: the first differing character
/// decides, and a sequence comes before every longer one it begins.
pub open spec fn text_le_from(a: Seq<char>, b: Seq<char>, i: nat) -> bool
    decreases a.len() - i,
{
    if i >= a.len() {
        true
    } else if i >= b.len() {
        false
    } else if a[i as int] != b[i as int] {
        (a[i as int] as int) < (b[i as int] as int)
    } else {
        text_le_from(a, b, i + 1)
    }
}

/// Lexicographic order of character sequences. For Rust strings this is the
/// order of `Ord for str`: UTF-8 keeps the order of code points, so comparing
/// bytes and comparing characters agree.
pub open spec fn text_le(a: Seq<char>, b: Seq<char>) -> bool {
    text_le_from(a, b, 0)
}

proof fn lemma_text_le_from_reflexive(a: Seq<char>, i: nat)
    ensures
        text_le_from(a, a, i),
    decreases a.len() - i,
{
    if i < a.len() {
        lemma_text_le_from_reflexive(a, i + 1);
    }
}

proof fn lemma_text_le_from_total(a: Seq<char>, b: Seq<char>, i: nat)
    ensures
        text_le_from(a, b, i) || text_le_from(b, a, i),
    decreases a.len() - i,
{
    if i < a.len() && i < b.len() && a[i as int] == b[i as int] {
        lemma_text_le_from_total(a, b, i + 1);
    }
}

proof fn lemma_text_le_from_transitive(a: Seq<char>, b: Seq<char>, c: Seq<char>, i: nat)
    requires
        text_le_from(a, b, i),
        text_le_from(b, c, i),
    ensures
        text_le_from(a, c, i),
    decreases a.len() - i,
{
    if i < a.len() && a[i as int] == b[i as int] && b[i as int] == c[i as int] {
        lemma_text_le_from_transitive(a, b, c, i + 1);
    }
}

/// Every sequence comes at or after itself.
pub proof fn lemma_text_le_reflexive(a: Seq<char>)
    ensures
        text_le(a, a),
{
    lemma_text_le_from_reflexive(a, 0);
}

/// Of two sequences, one comes at or before the other.
pub proof fn lemma_text_le_total(a: Seq<char>, b: Seq<char>)
    ensures
        text_le(a, b) || text_le(b, a),
{
    lemma_text_le_from_total(a, b, 0);
}

/// Order is transitive.
pub proof fn lemma_text_le_transitive(a: Seq<char>, b: Seq<char>, c: Seq<char>)
    requires
        text_le(a, b),
        text_le(b, c),
    ensures
        text_le(a, c),
{
    lemma_text_le_from_transitive(a, b, c, 0);
}

proof fn lemma_text_le_from_skips_equal_prefix(a: Seq<char>, b: Seq<char>, j: nat, i: nat)
    requires
        j <= i <= a.len(),
        i <= b.len(),
        forall|k: int| j <= k < i ==> a[k] == b[k],
    ensures
        text_le_from(a, b, j) == text_le_from(a, b, i),
    decreases i - j,
{
    if j < i {
        lemma_text_le_from_skips_equal_prefix(a, b, j + 1, i);
    }
}

/// The order of texts is the order of code points: where two texts first
/// differ, the one whose character there has the smaller code point comes
/// first.
pub proof fn law_text_order_is_code_point_order(a: Seq<char>, b: Seq<char>, i: int)
    requires
        0 <= i < a.len(),
        i < b.len(),
        a.take(i) == b.take(i),
        a[i] != b[i],
    ensures
        text_le(a, b) <==> (a[i] as int) < (b[i] as int),
        text_le(b, a) <==> (b[i] as int) < (a[i] as int),
{
    assert forall|k: int| 0 <= k < i implies a[k] == b[k] by {
        assert(a.take(i)[k] == a[k]);
        assert(b.take(i)[k] == b[k]);
        assert(a.take(i)[k] == b.take(i)[k]);
    }
    lemma_text_le_from_skips_equal_prefix(a, b, 0, i as nat);
    lemma_text_le_from_skips_equal_prefix(b, a, 0, i as nat);
}

/// A text comes before every longer text that it begins, and after none.
pub proof fn law_prefix_comes_first(a: Seq<char>, b: Seq<char>)
    requires
        a.len() <= b.len(),
        b.take(a.len() as int) == a,
    ensures
        text_le(a, b),
        a.len() < b.len() ==> !text_le(b, a),
{
    assert forall|k: int| 0 <= k < a.len() implies a[k] == b[k] by {
        assert(b.take(a.len() as int)[k] == b[k]);
    }
    lemma_text_le_from_skips_equal_prefix(a, b, 0, a.len());
    assert forall|k: int| 0 <= k < a.len() implies b[k] == a[k] by {
        assert(b.take(a.len() as int)[k] == b[k]);
    }
    lemma_text_le_from_skips_equal_prefix(b, a, 0, a.len());
}

/// Whether `a` comes at or before `b` lexicographically.
pub fn chars_le(a: &Vec<char>, b: &Vec<char>) -> (le: bool)
    ensures
        le == text_le(a@, b@),
{
    let mut i: usize = 0;
    while i < a.len() && i < b.len()
        invariant
            i <= a@.len(),
            i <= b@.len(),
            text_le(a@, b@) == text_le_from(a@, b@, i as nat),
        decreases a@.len() - i,
    {
        if a[i] != b[i] {
            return a[i] < b[i];
        }
        i = i + 1;
    }
    i >= a.len()
}

/// Whether the sequences are ordered lexicographically, each at or before
/// every later one.
pub open spec fn texts_ordered(s: Seq<Seq<char>>) -> bool {
    forall|i: int, j: int| 0 <= i <= j < s.len() ==> text_le(s[i], s[j])
}

/// The test for sequences equal to `t`.
pub open spec fn equal_to(t: Seq<char>) -> spec_fn(Seq<char>) -> bool {
    |x: Seq<char>| x == t
}

/// Filtering keeps nothing when no element passes the test.
pub proof fn lemma_filter_rejects_all<A>(s: Seq<A>, pred: spec_fn(A) -> bool)
    requires
        forall|i: int| 0 <= i < s.len() ==> !pred(#[trigger] s[i]),
    ensures
        s.filter(pred) == Seq::<A>::empty(),
    decreases s.len(),
{
    reveal(Seq::filter);
    if s.len() > 0 {
        lemma_filter_rejects_all(s.drop_last(), pred);
        assert(!pred(s[s.len() - 1]));
    }
    assert(s.filter(pred) =~= Seq::<A>::empty());
}

proof fn lemma_text_le_from_antisymmetric(a: Seq<char>, b: Seq<char>, i: nat)
    requires
        i <= a.len(),
        i <= b.len(),
        forall|k: int| 0 <= k < i ==> a[k] == b[k],
        text_le_from(a, b, i),
        text_le_from(b, a, i),
    ensures
        a == b,
    decreases a.len() - i,
{
    if i < a.len() && i < b.len() {
        lemma_text_le_from_antisymmetric(a, b, i + 1);
    } else {
        assert(a =~= b);
    }
}

/// Two sequences each at or before the other are equal.
pub proof fn lemma_text_le_antisymmetric(a: Seq<char>, b: Seq<char>)
    requires
        text_le(a, b),
        text_le(b, a),
    ensures
        a == b,
{
    lemma_text_le_from_antisymmetric(a, b, 0);
}

/// Whether the sequences strictly increase lexicographically: ordered, and
/// no sequence occurs twice.
pub open spec fn texts_increasing(s: Seq<Seq<char>>) -> bool {
    texts_ordered(s) && s.no_duplicates()
}

/// A value that occurs at two places is kept at least twice by a filter for
/// it.
proof fn lemma_twice_found(s: Seq<Seq<char>>, i: int, j: int)
    requires
        0 <= i < j < s.len(),
        s[i] == s[j],
    ensures
        s.filter(equal_to(s[i])).len() >= 2,
    decreases s.len(),
{
    reveal(Seq::filter);
    let f = equal_to(s[i]);
    if j < s.len() - 1 {
        lemma_twice_found(s.drop_last(), i, j);
    } else {
        s.drop_last().lemma_filter_contains(f, i);
    }
}

/// Without duplicates, a filter for one value keeps it at most once.
proof fn lemma_found_at_most_once(s: Seq<Seq<char>>, t: Seq<char>)
    requires
        s.no_duplicates(),
    ensures
        s.filter(equal_to(t)).len() <= 1,
    decreases s.len(),
{
    reveal(Seq::filter);
    if s.len() > 0 {
        let f = equal_to(t);
        if s.last() == t {
            assert forall|i: int| 0 <= i < s.drop_last().len() implies !f(#[trigger] s.drop_last()[i]) by {
                assert(s[i] != s[s.len() - 1]);
            }
            lemma_filter_rejects_all(s.drop_last(), f);
        } else {
            lemma_found_at_most_once(s.drop_last(), t);
        }
    }
}

/// Sequences that keep every value as often as a sequence without
/// duplicates have no duplicates either.
pub proof fn lemma_same_counts_keep_no_duplicates(s: Seq<Seq<char>>, r: Seq<Seq<char>>)
    requires
        s.no_duplicates(),
        forall|t: Seq<char>| #[trigger] r.filter(equal_to(t)) == s.filter(equal_to(t)),
    ensures
        r.no_duplicates(),
{
    assert forall|i: int, j: int| 0 <= i < r.len() && 0 <= j < r.len() && i != j implies r[i] != r[j] by {
        if r[i] == r[j] {
            if i < j {
                lemma_twice_found(r, i, j);
            } else {
                lemma_twice_found(r, j, i);
            }
            assert(r.filter(equal_to(r[i])) == s.filter(equal_to(r[i])));
            lemma_found_at_most_once(s, r[i]);
        }
    }
}

/// Two ordered sequences that keep every value equally often are equal: the
/// ordered arrangement of a collection of texts is unique.
pub proof fn law_ordered_arrangement_is_unique(a: Seq<Seq<char>>, b: Seq<Seq<char>>)
    requires
        texts_ordered(a),
        texts_ordered(b),
        forall|t: Seq<char>| #[trigger] a.filter(equal_to(t)) == b.filter(equal_to(t)),
    ensures
        a == b,
    decreases a.len() + b.len(),
{
    reveal(Seq::filter);
    if a.len() == 0 || b.len() == 0 {
        if a.len() > 0 {
            a.lemma_filter_contains(equal_to(a[0]), 0);
            assert(b.filter(equal_to(a[0])) =~= Seq::<Seq<char>>::empty()) by {
                lemma_filter_rejects_all(b, equal_to(a[0]));
            }
        } else if b.len() > 0 {
            b.lemma_filter_contains(equal_to(b[0]), 0);
            assert(a.filter(equal_to(b[0])) =~= Seq::<Seq<char>>::empty()) by {
                lemma_filter_rejects_all(a, equal_to(b[0]));
            }
        } else {
            assert(a =~= b);
        }
    } else {
        let x = a.last();
        let y = b.last();
        a.lemma_filter_contains(equal_to(x), a.len() - 1);
        b.lemma_filter_contains(equal_to(y), b.len() - 1);
        assert(b.filter(equal_to(x)).contains(x));
        assert(a.filter(equal_to(y)).contains(y));
        lemma_filter_element_occurs(b, equal_to(x), x);
        lemma_filter_element_occurs(a, equal_to(y), y);
        let i = choose|i: int| 0 <= i < b.len() && b[i] == x;
        let j = choose|j: int| 0 <= j < a.len() && a[j] == y;
        assert(text_le(b[i], y));
        assert(text_le(a[j], x));
        lemma_text_le_antisymmetric(x, y);
        assert forall|t: Seq<char>| #[trigger] a.drop_last().filter(equal_to(t)) == b.drop_last().filter(
            equal_to(t),
        ) by {
            a.drop_last().lemma_filter_push(x, equal_to(t));
            b.drop_last().lemma_filter_push(y, equal_to(t));
            assert(a.drop_last().push(x) =~= a);
            assert(b.drop_last().push(y) =~= b);
            if x == t {
                assert(a.filter(equal_to(t)).drop_last() =~= a.drop_last().filter(equal_to(t)));
                assert(b.filter(equal_to(t)).drop_last() =~= b.drop_last().filter(equal_to(t)));
            }
        }
        law_ordered_arrangement_is_unique(a.drop_last(), b.drop_last());
        assert(a =~= b.drop_last().push(y));
    }
}

/// A value kept by a filter occurs in the sequence filtered.
pub(crate) proof fn lemma_filter_element_occurs(s: Seq<Seq<char>>, pred: spec_fn(Seq<char>) -> bool, x: Seq<char>)
    requires
        s.filter(pred).contains(x),
    ensures
        s.contains(x),
    decreases s.len(),
{
    reveal(Seq::filter);
    if s.len() > 0 {
        let rest = s.drop_last().filter(pred);
        if rest.contains(x) {
            lemma_filter_element_occurs(s.drop_last(), pred, x);
            let k = choose|k: int| 0 <= k < s.drop_last().len() && s.drop_last()[k] == x;
            assert(s[k] == x);
        } else {
            assert(s[s.len() - 1] == x);
        }
    }
}

/// Orders strings lexicographically, as `sort` on a `Vec<String>` does: the
/// result is ordered and holds every string as often as the input does.
pub fn sort_texts(texts: Vec<String>) -> (sorted: Vec<String>)
    ensures
        sorted@.len() == texts@.len(),
        texts_ordered(strings_view(sorted@)),
        forall|t: Seq<char>| #[trigger] strings_view(sorted@).filter(equal_to(t)) == strings_view(texts@).filter(equal_to(t)),
        strings_view(texts@).no_duplicates() ==> texts_increasing(strings_view(sorted@)),
{
    let ghost orig = strings_view(texts@);
    let mut rest = texts;
    let mut sorted: Vec<String> = Vec::new();
    let mut keys: Vec<Vec<char>> = Vec::new();
    let ghost mut k: int = 0;
    while rest.len() > 0
        invariant
            0 <= k <= orig.len(),
            strings_view(rest@) == orig.skip(k),
            sorted@.len() == k,
            keys@.len() == k,
            forall|i: int| 0 <= i < k ==> #[trigger] keys@[i]@ == sorted@[i]@,
            texts_ordered(strings_view(sorted@)),
            forall|t: Seq<char>| #[trigger] strings_view(sorted@).filter(equal_to(t)) == orig.take(k).filter(equal_to(t)),
        decreases rest@.len(),
    {
        let ghost rest_before = rest@;
        let s = rest.remove(0);
        proof {
            assert(strings_view(rest_before)[0] == s@);
            assert(strings_view(rest@) =~= strings_view(rest_before).drop_first());
        }
        let key = chars_of(s.as_str());
        let mut pos: usize = 0;
        while pos < keys.len() && chars_le(&keys[pos], &key)
            invariant
                pos <= keys@.len(),
                keys@.len() == sorted@.len(),
                forall|i: int| 0 <= i < keys@.len() ==> #[trigger] keys@[i]@ == sorted@[i]@,
                forall|i: int| 0 <= i < pos ==> text_le(#[trigger] sorted@[i]@, key@),
            decreases keys@.len() - pos,
        {
            pos = pos + 1;
        }
        let ghost before = strings_view(sorted@);
        proof {
            assert forall|i: int| pos <= i < before.len() implies !text_le(#[trigger] before[i], s@) by {
                assert(!text_le(keys@[pos as int]@, key@));
                if text_le(before[i], s@) {
                    lemma_text_le_transitive(before[pos as int], before[i], s@);
                }
            }
        }
        sorted.insert(pos, s);
        keys.insert(pos, key);
        proof {
            let after = strings_view(sorted@);
            let low = before.take(pos as int);
            let high = before.skip(pos as int);
            assert(before =~= low + high);
            assert(after =~= low.push(s@) + high);
            assert(orig.take(k + 1) =~= orig.take(k).push(s@));
            assert forall|i: int, j: int| 0 <= i <= j < after.len() implies text_le(after[i], after[j]) by {
                if i == j {
                    lemma_text_le_reflexive(after[i]);
                } else if j == pos {
                    assert(after[i] == before[i]);
                } else if i == pos {
                    assert(after[j] == before[j - 1]);
                    lemma_text_le_total(s@, before[j - 1]);
                } else {
                    let bi = if i < pos { i } else { i - 1 };
                    let bj = if j < pos { j } else { j - 1 };
                    assert(after[i] == before[bi] && after[j] == before[bj]);
                }
            }
            assert forall|t: Seq<char>| #[trigger] after.filter(equal_to(t)) == orig.take(k + 1).filter(
                equal_to(t),
            ) by {
                let f = equal_to(t);
                Seq::filter_distributes_over_add(low, high, f);
                Seq::filter_distributes_over_add(low.push(s@), high, f);
                low.lemma_filter_push(s@, f);
                orig.take(k).lemma_filter_push(s@, f);
                if t == s@ {
                    assert forall|i: int| 0 <= i < high.len() implies !f(#[trigger] high[i]) by {
                        lemma_text_le_reflexive(s@);
                        assert(high[i] == before[pos + i]);
                    }
                    lemma_filter_rejects_all(high, f);
                    assert(low.filter(f) + high.filter(f) =~= low.filter(f));
                    assert(low.filter(f).push(s@) + high.filter(f) =~= low.filter(f).push(s@));
                }
            }
            k = k + 1;
        }
    }
    assert(orig.take(k) =~= orig);
    proof {
        if orig.no_duplicates() {
            lemma_same_counts_keep_no_duplicates(orig, strings_view(sorted@));
        }
    }
    sorted
}

} // verus!
