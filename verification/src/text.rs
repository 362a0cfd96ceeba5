//! The order in which names are listed.

use vstd::prelude::*;

verus! {

/// `a` and `b` agree before place `k`, and at `k` either `a` has ended and
/// `b` goes on, or `a` has the lesser character.
pub open spec fn precedes_at(a: Seq<char>, b: Seq<char>, k: int) -> bool {
    &&& 0 <= k <= a.len()
    &&& k < b.len()
    &&& forall|i: int| 0 <= i < k ==> a[i] == b[i]
    &&& k < a.len() ==> a[k] < b[k]
}

/// `a` comes before `b` in lexicographic order, character by character.
pub open spec fn precedes(a: Seq<char>, b: Seq<char>) -> bool {
    exists|k: int| precedes_at(a, b, k)
}

/// The names are in strictly ascending order.
pub open spec fn is_ascending(names: Seq<Seq<char>>) -> bool {
    forall|i: int, j: int| 0 <= i < j < names.len() ==> precedes(names[i], names[j])
}

/// No text comes before itself.
pub proof fn lemma_precedes_irreflexive(a: Seq<char>)
    ensures
        !precedes(a, a),
{
}

/// What comes before a text comes before all that the text comes before.
pub proof fn lemma_precedes_transitive(a: Seq<char>, b: Seq<char>, c: Seq<char>)
    requires
        precedes(a, b),
        precedes(b, c),
    ensures
        precedes(a, c),
{
    let k1 = choose|k: int| precedes_at(a, b, k);
    let k2 = choose|k: int| precedes_at(b, c, k);
    if k1 <= k2 {
        assert(precedes_at(a, c, k1));
    } else {
        assert(precedes_at(a, c, k2));
    }
}

/// Names have one ascending order only: two lists in ascending order that
/// hold the same names are the same list.
pub proof fn ascending_order_is_unique(a: Seq<Seq<char>>, b: Seq<Seq<char>>)
    requires
        is_ascending(a),
        is_ascending(b),
        forall|name: Seq<char>| a.contains(name) <==> b.contains(name),
    ensures
        a == b,
    decreases a.len(),
{
    if a.len() == 0 {
        if b.len() > 0 {
            assert(b.contains(b[0]));
        }
        assert(a =~= b);
    } else {
        assert(a.contains(a[0]));
        let j = choose|j: int| 0 <= j < b.len() && b[j] == a[0];
        assert(b.contains(b[0]));
        let i = choose|i: int| 0 <= i < a.len() && a[i] == b[0];
        if j > 0 {
            // b[0] comes before b[j], which is a[0], and a[0] is b[0] or comes before it
            assert(precedes(b[0], b[j]));
            lemma_precedes_asymmetric(b[0], a[0]);
            assert(precedes(a[0], a[i]));
        }
        assert(a[0] == b[0]);
        let a_rest = a.skip(1);
        let b_rest = b.skip(1);
        assert forall|m: int, n: int| 0 <= m < n < a_rest.len() implies precedes(
            a_rest[m],
            a_rest[n],
        ) by {
            assert(precedes(a[m + 1], a[n + 1]));
        }
        assert forall|m: int, n: int| 0 <= m < n < b_rest.len() implies precedes(
            b_rest[m],
            b_rest[n],
        ) by {
            assert(precedes(b[m + 1], b[n + 1]));
        }
        assert forall|name: Seq<char>| a_rest.contains(name) <==> b_rest.contains(name) by {
            if a_rest.contains(name) {
                let m = choose|m: int| 0 <= m < a_rest.len() && a_rest[m] == name;
                assert(precedes(a[0], a[m + 1]));
                lemma_precedes_asymmetric(a[0], name);
                assert(a.contains(a[m + 1]));
                let n = choose|n: int| 0 <= n < b.len() && b[n] == name;
                assert(b_rest[n - 1] == name);
            }
            if b_rest.contains(name) {
                let m = choose|m: int| 0 <= m < b_rest.len() && b_rest[m] == name;
                assert(precedes(b[0], b[m + 1]));
                lemma_precedes_asymmetric(b[0], name);
                assert(b.contains(b[m + 1]));
                let n = choose|n: int| 0 <= n < a.len() && a[n] == name;
                assert(a_rest[n - 1] == name);
            }
        }
        ascending_order_is_unique(a_rest, b_rest);
        assert(a =~= b) by {
            assert(a.len() == b.len());
            assert forall|m: int| 0 <= m < a.len() implies a[m] == b[m] by {
                if m > 0 {
                    assert(a_rest[m - 1] == b_rest[m - 1]);
                }
            }
        }
    }
}

/// The characters of `text`, in their order.
pub fn chars_of(text: &str) -> (chars: Vec<char>)
    ensures
        chars@ == text@,
{
    let mut chars: Vec<char> = Vec::new();
    for c in it: text.chars()
        invariant
            it.seq() == text@,
            chars@ == it.seq().take(it.index()),
    {
        chars.push(c);
        assert(it.seq().take(it.index() + 1) == it.seq().take(it.index()).push(c));
    }
    assert(text@.take(text@.len() as int) == text@);
    chars
}

/// How one text stands to another in the order.
pub enum Order {
    Before,
    Same,
    After,
}

/// Two texts stand to each other in one way only.
pub proof fn lemma_precedes_asymmetric(a: Seq<char>, b: Seq<char>)
    requires
        precedes(a, b),
    ensures
        !precedes(b, a),
        a != b,
{
    lemma_precedes_irreflexive(a);
    if precedes(b, a) {
        lemma_precedes_transitive(a, b, a);
    }
}

/// Compares `a` with `b` in lexicographic order, character by character.
pub fn compare(a: &str, b: &str) -> (r: Order)
    ensures
        r is Before <==> precedes(a@, b@),
        r is Same <==> a@ == b@,
        r is After <==> precedes(b@, a@),
{
    let a_chars = chars_of(a);
    let b_chars = chars_of(b);
    let mut k: usize = 0;
    while k < a_chars.len() && k < b_chars.len()
        invariant
            a_chars@ == a@,
            b_chars@ == b@,
            k <= a@.len(),
            k <= b@.len(),
            forall|i: int| 0 <= i < k ==> a@[i] == b@[i],
        decreases a@.len() - k,
    {
        let x = a_chars[k];
        let y = b_chars[k];
        if x < y {
            proof {
                assert(precedes_at(a@, b@, k as int));
                lemma_precedes_asymmetric(a@, b@);
            }
            return Order::Before;
        } else if y < x {
            proof {
                assert(precedes_at(b@, a@, k as int));
                lemma_precedes_asymmetric(b@, a@);
            }
            return Order::After;
        }
        k += 1;
    }
    if a_chars.len() < b_chars.len() {
        proof {
            assert(precedes_at(a@, b@, k as int));
            lemma_precedes_asymmetric(a@, b@);
        }
        Order::Before
    } else if b_chars.len() < a_chars.len() {
        proof {
            assert(precedes_at(b@, a@, k as int));
            lemma_precedes_asymmetric(b@, a@);
        }
        Order::After
    } else {
        proof {
            assert(a@ =~= b@);
            lemma_precedes_irreflexive(a@);
        }
        Order::Same
    }
}

} // verus!
