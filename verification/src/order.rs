//! The bytewise lexicographic order.

use vstd::prelude::*;

verus! {

/// Bytewise lexicographic order.
pub open spec fn lex_less(a: Seq<u8>, b: Seq<u8>) -> bool
    decreases a.len(),
{
    if b.len() == 0 {
        false
    } else if a.len() == 0 {
        true
    } else if a[0] != b[0] {
        a[0] < b[0]
    } else {
        lex_less(a.drop_first(), b.drop_first())
    }
}

/// Three-way bytewise comparison.
pub enum Order {
    Less,
    Equal,
    Greater,
}

/// Compares `a` with `b`.
pub fn compare(a: &[u8], b: &[u8]) -> (r: Order)
    ensures
        match r {
            Order::Less => lex_less(a@, b@),
            Order::Equal => a@ == b@,
            Order::Greater => a@ != b@ && !lex_less(a@, b@),
        },
{
    let mut i: usize = 0;
    proof {
        assert(a@.skip(0) =~= a@);
        assert(b@.skip(0) =~= b@);
    }
    while i < a.len() && i < b.len()
        invariant
            i <= a@.len(),
            i <= b@.len(),
            forall|k: int| 0 <= k < i ==> a@[k] == b@[k],
            lex_less(a@, b@) == lex_less(a@.skip(i as int), b@.skip(i as int)),
        decreases a.len() - i,
    {
        proof {
            assert(a@.skip(i as int).drop_first() =~= a@.skip(i + 1));
            assert(b@.skip(i as int).drop_first() =~= b@.skip(i + 1));
        }
        if a[i] < b[i] {
            return Order::Less;
        }
        if a[i] > b[i] {
            return Order::Greater;
        }
        i = i + 1;
    }
    if i < b.len() {
        Order::Less
    } else if i < a.len() {
        Order::Greater
    } else {
        proof {
            assert(a@ =~= b@);
        }
        Order::Equal
    }
}

pub proof fn lemma_lex_less_irreflexive(a: Seq<u8>)
    ensures
        !lex_less(a, a),
    decreases a.len(),
{
    if a.len() > 0 {
        lemma_lex_less_irreflexive(a.drop_first());
    }
}

pub proof fn lemma_lex_less_transitive(a: Seq<u8>, b: Seq<u8>, c: Seq<u8>)
    requires
        lex_less(a, b),
        lex_less(b, c),
    ensures
        lex_less(a, c),
    decreases a.len(),
{
    if a.len() > 0 && a[0] == b[0] && b[0] == c[0] {
        lemma_lex_less_transitive(a.drop_first(), b.drop_first(), c.drop_first());
    }
}

/// `a` and `b` agree before `k`, and `a` is below `b` at `k`.
pub open spec fn first_below_at(a: Seq<u8>, b: Seq<u8>, k: int) -> bool {
    &&& 0 <= k < a.len()
    &&& k < b.len()
    &&& a[k] < b[k]
    &&& forall|i: int| 0 <= i < k ==> a[i] == b[i]
}

pub proof fn lemma_lex_less_at(a: Seq<u8>, b: Seq<u8>, k: int)
    requires
        first_below_at(a, b, k),
    ensures
        lex_less(a, b),
        !lex_less(b, a),
    decreases k,
{
    if k > 0 {
        lemma_lex_less_at(a.drop_first(), b.drop_first(), k - 1);
    }
}

pub proof fn lemma_lex_less_prefix(p: Seq<u8>, x: Seq<u8>, y: Seq<u8>)
    ensures
        lex_less(p + x, p + y) == lex_less(x, y),
    decreases p.len(),
{
    if p.len() > 0 {
        lemma_lex_less_prefix(p.drop_first(), x, y);
        assert((p + x).drop_first() =~= p.drop_first() + x);
        assert((p + y).drop_first() =~= p.drop_first() + y);
    } else {
        assert(p + x =~= x);
        assert(p + y =~= y);
    }
}

pub proof fn lemma_lex_less_total(a: Seq<u8>, b: Seq<u8>)
    ensures
        a == b || lex_less(a, b) || lex_less(b, a),
    decreases a.len(),
{
    if a.len() > 0 && b.len() > 0 && a[0] == b[0] {
        lemma_lex_less_total(a.drop_first(), b.drop_first());
        if a.drop_first() == b.drop_first() {
            assert(a =~= seq![a[0]] + a.drop_first());
            assert(b =~= seq![b[0]] + b.drop_first());
        }
    } else if a.len() == 0 && b.len() == 0 {
        assert(a =~= b);
    }
}

pub proof fn lemma_lex_less_asymmetric(a: Seq<u8>, b: Seq<u8>)
    requires
        lex_less(a, b),
    ensures
        !lex_less(b, a),
{
    if lex_less(b, a) {
        lemma_lex_less_transitive(a, b, a);
        lemma_lex_less_irreflexive(a);
    }
}

/// Of two texts that differ, the first byte in which they differ decides; where
/// one goes on from the other, the shorter is less.
pub proof fn law_first_difference_decides(
    same: Seq<u8>,
    x: u8,
    y: u8,
    a: Seq<u8>,
    b: Seq<u8>,
)
    ensures
        x != y ==> (lex_less(same + seq![x] + a, same + seq![y] + b) <==> x < y),
        lex_less(same, same + seq![x] + a),
        !lex_less(same + seq![x] + a, same),
        !lex_less(same, same),
    decreases same.len(),
{
    let left = same + seq![x] + a;
    let right = same + seq![y] + b;
    if same.len() > 0 {
        let rest = same.drop_first();
        law_first_difference_decides(rest, x, y, a, b);
        assert(left.drop_first() =~= rest + seq![x] + a);
        assert(right.drop_first() =~= rest + seq![y] + b);
        assert(left[0] == same[0] && right[0] == same[0]);
    } else {
        assert(left[0] == x && right[0] == y);
    }
}

} // verus!
