use vstd::prelude::*;

verus! {

/// Strict ascending byte order on raw store keys: a proper prefix comes
/// first, otherwise the first differing byte decides.
pub open spec fn key_lt(a: Seq<u8>, b: Seq<u8>) -> bool
    decreases a.len(),
{
    if a.len() == 0 {
        b.len() > 0
    } else if b.len() == 0 {
        false
    } else if a[0] != b[0] {
        a[0] < b[0]
    } else {
        key_lt(a.drop_first(), b.drop_first())
    }
}

/// No key is below itself.
pub proof fn lemma_key_lt_irreflexive(a: Seq<u8>)
    ensures
        !key_lt(a, a),
    decreases a.len(),
{
    if a.len() > 0 {
        lemma_key_lt_irreflexive(a.drop_first());
    }
}

/// The order is transitive.
pub proof fn lemma_key_lt_transitive(a: Seq<u8>, b: Seq<u8>, c: Seq<u8>)
    requires
        key_lt(a, b),
        key_lt(b, c),
    ensures
        key_lt(a, c),
    decreases a.len(),
{
    if a.len() > 0 && b.len() > 0 && c.len() > 0 && a[0] == b[0] && b[0] == c[0] {
        lemma_key_lt_transitive(a.drop_first(), b.drop_first(), c.drop_first());
    }
}

/// Two distinct keys are ordered one way or the other, and never both.
pub proof fn lemma_key_lt_total(a: Seq<u8>, b: Seq<u8>)
    ensures
        a == b || key_lt(a, b) || key_lt(b, a),
        !(key_lt(a, b) && key_lt(b, a)),
    decreases a.len(),
{
    if a.len() > 0 && b.len() > 0 && a[0] == b[0] {
        lemma_key_lt_total(a.drop_first(), b.drop_first());
        if a.drop_first() == b.drop_first() {
            assert(a =~= seq![a[0]] + a.drop_first());
            assert(b =~= seq![b[0]] + b.drop_first());
        }
    }
}

/// A key followed by one more byte sorts right after the key itself:
/// nothing lies strictly between them.
pub proof fn lemma_key_lt_push(a: Seq<u8>, x: Seq<u8>)
    ensures
        key_lt(a, a.push(0)),
        key_lt(a, x) ==> x == a.push(0) || key_lt(a.push(0), x),
    decreases a.len(),
{
    if a.len() > 0 {
        assert(a.push(0).drop_first() =~= a.drop_first().push(0));
        assert(a.push(0)[0] == a[0]);
        lemma_key_lt_push(a.drop_first(), x.drop_first());
        if x.len() > 0 && x[0] == a[0] && x.drop_first() == a.drop_first().push(0) {
            assert(x =~= seq![x[0]] + x.drop_first());
            assert(a.push(0) =~= seq![a[0]] + a.drop_first().push(0));
        }
    } else {
        let z = a.push(0);
        assert(z.len() == 1 && z[0] == 0);
        assert(z.drop_first() =~= Seq::<u8>::empty());
        if x.len() == 1 && x[0] == 0 {
            assert(x =~= z);
        }
        if x.len() > 1 && x[0] == 0 {
            assert(x.drop_first().len() > 0);
            assert(key_lt(z.drop_first(), x.drop_first()));
        }
    }
}

proof fn lemma_key_lt_step(a: Seq<u8>, b: Seq<u8>, i: int)
    requires
        0 <= i < a.len(),
        i < b.len(),
        a[i] == b[i],
    ensures
        key_lt(a.skip(i), b.skip(i)) == key_lt(a.skip(i + 1), b.skip(i + 1)),
{
    assert(a.skip(i).drop_first() =~= a.skip(i + 1));
    assert(b.skip(i).drop_first() =~= b.skip(i + 1));
}

/// Returns whether `a` sorts strictly before `b`.
pub fn key_less(a: &[u8], b: &[u8]) -> (r: bool)
    ensures
        r == key_lt(a@, b@),
{
    let mut i: usize = 0;
    assert(a@.skip(0) =~= a@);
    assert(b@.skip(0) =~= b@);
    while i < a.len() && i < b.len()
        invariant
            0 <= i <= a@.len(),
            i <= b@.len(),
            key_lt(a@, b@) == key_lt(a@.skip(i as int), b@.skip(i as int)),
        decreases a@.len() - i,
    {
        if a[i] != b[i] {
            return a[i] < b[i];
        }
        proof {
            lemma_key_lt_step(a@, b@, i as int);
        }
        i = i + 1;
    }
    i < b.len()
}

/// Returns whether the two keys hold the same bytes.
pub fn key_equal(a: &[u8], b: &[u8]) -> (r: bool)
    ensures
        r == (a@ == b@),
{
    if a.len() != b.len() {
        return false;
    }
    let mut i: usize = 0;
    while i < a.len()
        invariant
            a@.len() == b@.len(),
            0 <= i <= a@.len(),
            forall|j: int| 0 <= j < i ==> a@[j] == b@[j],
        decreases a@.len() - i,
    {
        if a[i] != b[i] {
            return false;
        }
        i = i + 1;
    }
    assert(a@ =~= b@);
    true
}

} // verus!
