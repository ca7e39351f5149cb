//! Permutations of the 54 facelets and the matrices that stand for them.

use vstd::prelude::*;
use vstd::relations::injective_on;
use vstd::set_lib::{lemma_int_range, lemma_map_size, lemma_subset_equality, set_int_range};

verus! {

/// A sequence that holds each of the numbers 0 to 53 once.
pub open spec fn is_permutation(s: Seq<u8>) -> bool {
    &&& s.len() == 54
    &&& forall|i: int| 0 <= i < 54 ==> #[trigger] s[i] < 54
    &&& forall|i: int, j: int| 0 <= i < j < 54 ==> #[trigger] s[i] != #[trigger] s[j]
}

/// The permutation that leaves every facelet where it is.
pub open spec fn identity_seq() -> Seq<u8> {
    Seq::new(54, |i: int| i as u8)
}

/// The sequence that takes `i` to `second[first[i]]`.
pub open spec fn compose(first: Seq<u8>, second: Seq<u8>) -> Seq<u8> {
    Seq::new(54, |i: int| second[first[i] as int])
}

/// The sequence that takes each number to the place where `s` holds it.
pub open spec fn inverse(s: Seq<u8>) -> Seq<u8> {
    Seq::new(54, |j: int| place_of(s, j) as u8)
}

/// The place where `s` holds `j`, if it holds it at all.
pub open spec fn place_of(s: Seq<u8>, j: int) -> int {
    choose|i: int| 0 <= i < 54 && s[i] == j
}

/// A permutation holds every number from 0 to 53 somewhere.
pub proof fn lemma_permutation_surjective(s: Seq<u8>, j: int)
    requires
        is_permutation(s),
        0 <= j < 54,
    ensures
        0 <= place_of(s, j) < 54,
        s[place_of(s, j)] == j,
{
    let dom = set_int_range(0, 54);
    let f = |i: int| s[i] as int;
    let img = dom.map(f);
    lemma_int_range(0, 54);
    assert(injective_on(f, dom)) by {
        assert forall|a: int, b: int|
            dom.contains(a) && dom.contains(b) && #[trigger] f(a) == #[trigger] f(b) implies a
            == b by {
            if a < b {
                assert(s[a] != s[b]);
            } else if b < a {
                assert(s[b] != s[a]);
            }
        }
    }
    lemma_map_size(dom, img, f);
    assert(img.subset_of(dom)) by {
        assert forall|v: int| img.contains(v) implies dom.contains(v) by {
            let a = choose|a: int| dom.contains(a) && v == f(a);
            assert(s[a] < 54);
        }
    }
    lemma_subset_equality(img, dom);
    assert(img.contains(j));
    let a = choose|a: int| dom.contains(a) && j == f(a);
    assert(0 <= a < 54 && s[a] == j);
}

/// The inverse of a permutation is a permutation, and composing the two in
/// either order gives the identity.
pub proof fn lemma_inverse(s: Seq<u8>)
    requires
        is_permutation(s),
    ensures
        is_permutation(inverse(s)),
        compose(s, inverse(s)) == identity_seq(),
        compose(inverse(s), s) == identity_seq(),
        inverse(inverse(s)) == s,
{
    let t = inverse(s);
    assert forall|j: int| 0 <= j < 54 implies 0 <= #[trigger] t[j] < 54 && s[t[j] as int] == j by {
        lemma_permutation_surjective(s, j);
    }
    assert forall|i: int| 0 <= i < 54 implies t[#[trigger] s[i] as int] == i by {
        let j = s[i] as int;
        assert(s[t[j] as int] == j);
        if t[j] < i {
            assert(s[t[j] as int] != s[i]);
        } else if i < t[j] {
            assert(s[i] != s[t[j] as int]);
        }
    }
    assert forall|i: int, j: int| 0 <= i < j < 54 implies #[trigger] t[i] != #[trigger] t[j] by {
        assert(s[t[i] as int] == i);
        assert(s[t[j] as int] == j);
    }
    assert(compose(s, t) =~= identity_seq());
    assert(compose(t, s) =~= identity_seq());
    lemma_inverse_unique(t, s);
}

/// A sequence that undoes a permutation is its inverse.
pub proof fn lemma_inverse_unique(s: Seq<u8>, t: Seq<u8>)
    requires
        is_permutation(s),
        t.len() == 54,
        forall|i: int| 0 <= i < 54 ==> t[#[trigger] s[i] as int] == i,
    ensures
        inverse(s) == t,
{
    let r = inverse(s);
    assert forall|j: int| 0 <= j < 54 implies r[j] == t[j] by {
        lemma_permutation_surjective(s, j);
        let i = place_of(s, j);
        assert(t[s[i] as int] == i);
    }
    assert(r =~= t);
}

/// Composing two permutations gives a permutation.
pub proof fn lemma_compose_permutation(a: Seq<u8>, b: Seq<u8>)
    requires
        is_permutation(a),
        is_permutation(b),
    ensures
        is_permutation(compose(a, b)),
{
    let c = compose(a, b);
    assert forall|i: int, j: int| 0 <= i < j < 54 implies #[trigger] c[i] != #[trigger] c[j] by {
        assert(a[i] != a[j]);
        let x = a[i] as int;
        let y = a[j] as int;
        if x < y {
            assert(b[x] != b[y]);
        } else {
            assert(b[y] != b[x]);
        }
    }
    assert forall|i: int| 0 <= i < 54 implies #[trigger] c[i] < 54 by {
        assert(a[i] < 54);
        assert(b[a[i] as int] < 54);
    }
}

/// Composition is associative.
pub proof fn lemma_compose_associative(a: Seq<u8>, b: Seq<u8>, c: Seq<u8>)
    requires
        is_permutation(a),
    ensures
        compose(compose(a, b), c) == compose(a, compose(b, c)),
{
    assert(compose(compose(a, b), c) =~= compose(a, compose(b, c)));
}

/// The identity is a permutation and a unit of composition on both sides.
pub proof fn lemma_compose_identity(a: Seq<u8>)
    requires
        a.len() == 54,
    ensures
        is_permutation(identity_seq()),
        compose(identity_seq(), a) == a,
        is_permutation(a) ==> compose(a, identity_seq()) == a,
{
    assert(compose(identity_seq(), a) =~= a);
    if is_permutation(a) {
        assert forall|i: int| 0 <= i < 54 implies compose(a, identity_seq())[i] == a[i] by {
            assert(a[i] < 54);
        }
        assert(compose(a, identity_seq()) =~= a);
    }
}

/// Permutation i -> p[i]
#[derive(Clone, Copy, PartialEq, Eq, Debug)]
pub struct Permutation {
    inner: [u8; 54],
}

impl View for Permutation {
    type V = Seq<u8>;

    closed spec fn view(&self) -> Seq<u8> {
        self.inner@
    }
}

impl Permutation {
    /// Every permutation holds each number once.
    #[verifier::type_invariant]
    spec fn valid(self) -> bool {
        is_permutation(self.inner@)
    }

    /// Whether `perm` holds each of the numbers 0 to 53 once.
    pub fn is_valid(perm: &[u8; 54]) -> (b: bool)
        ensures
            b == is_permutation(perm@),
    {
        let mut seen = [false; 54];
        let mut i: usize = 0;
        while i < 54
            invariant
                i <= 54,
                forall|k: int| 0 <= k < i ==> #[trigger] perm@[k] < 54,
                forall|k: int, l: int| 0 <= k < l < i ==> #[trigger] perm@[k] != #[trigger] perm@[l],
                forall|v: int|
                    0 <= v < 54 ==> (#[trigger] seen@[v] <==> exists|k: int|
                        0 <= k < i && perm@[k] == v),
            decreases 54 - i,
        {
            let v = perm[i];
            if v >= 54 {
                return false;
            }
            if seen[v as usize] {
                proof {
                    let k = choose|k: int| 0 <= k < i && perm@[k] == v;
                    assert(perm@[k] == perm@[i as int]);
                }
                return false;
            }
            seen[v as usize] = true;
            i += 1;
        }
        true
    }

    /// The permutation that takes every `i` to `perm[i]`.
    pub fn new(perm: [u8; 54]) -> (p: Self)
        requires
            is_permutation(perm@),
        ensures
            p@ == perm@,
    {
        Self { inner: perm }
    }

    /// The permutation that undoes `self`.
    pub fn inv(self) -> (r: Self)
        ensures
            r@ == inverse(self@),
    {
        proof {
            use_type_invariant(&self);
            lemma_inverse(self.inner@);
        }
        let mut inv = [0u8; 54];
        let mut i: u8 = 0;
        while i < 54
            invariant
                i <= 54,
                is_permutation(self.inner@),
                forall|k: int| 0 <= k < i ==> inv@[#[trigger] self.inner@[k] as int] == k,
            decreases 54 - i,
        {
            inv[self.inner[i as usize] as usize] = i;
            i += 1;
        }
        proof {
            lemma_inverse_unique(self.inner@, inv@);
        }
        Self { inner: inv }
    }

    /// The permutation that takes every number to itself.
    pub fn identity() -> (r: Self)
        ensures
            r@ == identity_seq(),
    {
        let mut inner = [0u8; 54];
        let mut i: u8 = 0;
        while i < 54
            invariant
                i <= 54,
                forall|k: int| 0 <= k < i ==> #[trigger] inner@[k] == k,
            decreases 54 - i,
        {
            inner[i as usize] = i;
            i += 1;
        }
        proof {
            assert(inner@ =~= identity_seq());
        }
        Self { inner }
    }
}

impl std::ops::Index<u8> for Permutation {
    type Output = u8;

    /// Where the permutation takes `i`.
    fn index(&self, i: u8) -> (r: &u8)
        ensures
            *r == self@[i as int],
    {
        &self.inner[i as usize]
    }
}

impl vstd::std_specs::core::IndexSpecImpl<u8> for Permutation {
    open spec fn index_req(&self, i: &u8) -> bool {
        *i < 54
    }
}

/// Matrix representation of a `Permutation`: the state of a cube, or a move
/// on it. The product `a * b` stands for `b` followed by `a`.
#[derive(Clone, Copy, PartialEq, Eq, Debug, Hash)]
pub struct PermutationMatrix {
    /// Inversion of permutation: at each facelet, the facelet from which the
    /// sticker that lies there came.
    pub inv_perm: [u8; 54],
}

impl PermutationMatrix {
    /// Whether the matrix stands for a permutation of the facelets.
    pub open spec fn wf(self) -> bool {
        is_permutation(self.inv_perm@)
    }

    /// The matrix of the move that `self` stands for, made after that of `to`.
    pub open spec fn spec_apply(self, to: Self) -> Self {
        choose|m: Self| m.inv_perm@ == compose(self.inv_perm@, to.inv_perm@)
    }

    /// Whether the matrix stands for a permutation of the facelets.
    pub fn is_wf(&self) -> (b: bool)
        ensures
            b == self.wf(),
    {
        Permutation::is_valid(&self.inv_perm)
    }

    /// The cube on which no sticker has moved.
    pub fn identity() -> (m: Self)
        ensures
            m.inv_perm@ == identity_seq(),
            m.wf(),
    {
        let p = Permutation::identity();
        proof {
            lemma_compose_identity(p.inner@);
        }
        PermutationMatrix { inv_perm: p.inner }
    }

    /// The matrix of the move that takes the sticker of every facelet `i` to
    /// the facelet `perm[i]`.
    pub fn op(perm: Permutation) -> (m: Self)
        ensures
            m.inv_perm@ == inverse(perm@),
            m.wf(),
    {
        proof {
            use_type_invariant(&perm);
            lemma_inverse(perm.inner@);
        }
        PermutationMatrix { inv_perm: perm.inv().inner }
    }

    /// The matrix of the move that undoes `self`.
    pub fn inv(self) -> (m: Self)
        requires
            self.wf(),
        ensures
            m.inv_perm@ == inverse(self.inv_perm@),
            m.wf(),
    {
        PermutationMatrix::op(Permutation::new(self.inv_perm))
    }

    /// The state that `to` turns into under the move that `self` stands for.
    pub fn apply(self, to: Self) -> (m: Self)
        requires
            self.wf(),
            to.wf(),
        ensures
            m.inv_perm@ == compose(self.inv_perm@, to.inv_perm@),
            m.wf(),
    {
        let out = gather(&self.inv_perm, &to.inv_perm);
        proof {
            lemma_compose_permutation(self.inv_perm@, to.inv_perm@);
        }
        Self { inv_perm: out }
    }
}

impl std::ops::Mul for PermutationMatrix {
    type Output = Self;

    /// The state that `rhs` turns into under the move that `self` stands
    /// for.
    fn mul(self, rhs: Self) -> (m: Self)
        ensures
            m.inv_perm@ == compose(self.inv_perm@, rhs.inv_perm@),
            m.wf(),
    {
        let m = self.apply(rhs);
        proof {
            assert(m.inv_perm =~= self.spec_apply(rhs).inv_perm);
        }
        m
    }
}

impl vstd::std_specs::ops::MulSpecImpl for PermutationMatrix {
    open spec fn obeys_mul_spec() -> bool {
        true
    }

    open spec fn mul_req(self, rhs: Self) -> bool {
        self.wf() && rhs.wf()
    }

    open spec fn mul_spec(self, rhs: Self) -> Self {
        self.spec_apply(rhs)
    }
}

/// At each place, what `v` holds at the place that `index` names there.
fn gather(index: &[u8; 54], v: &[u8; 54]) -> (out: [u8; 54])
    requires
        forall|i: int| 0 <= i < 54 ==> #[trigger] index@[i] < 54,
    ensures
        out@ == compose(index@, v@),
{
    let mut out = [0u8; 54];
    let mut i: usize = 0;
    while i < 54
        invariant
            i <= 54,
            forall|k: int| 0 <= k < 54 ==> #[trigger] index@[k] < 54,
            forall|k: int| 0 <= k < i ==> #[trigger] out@[k] == v@[index@[k] as int],
        decreases 54 - i,
    {
        let k = index[i];
        let j = v[k as usize];
        out[i] = j;
        i += 1;
    }
    proof {
        assert(out@ =~= compose(index@, v@));
    }
    out
}

} // verus!
