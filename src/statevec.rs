use crate::error::QirError;
use vstd::prelude::*;

verus! {

/// Bit `k` of basis index `i`: the basis value of qubit `k`.
pub open spec fn has_bit(i: usize, k: usize) -> bool {
    i & (1usize << k) != 0
}

/// Basis index `i` with the value of qubit `k` flipped.
pub open spec fn flip(i: usize, k: usize) -> usize {
    i ^ (1usize << k)
}

/// The number of amplitudes of an `n`-qubit state.
pub open spec fn dim(n: usize) -> nat {
    (1usize << n) as nat
}

proof fn lemma_bits(i: usize, k: usize, n: usize)
    requires
        k < n < 32,
        i < (1usize << n),
    ensures
        !has_bit(i, k) ==> (i | (1usize << k)) == flip(i, k) && flip(i, k) > i,
        has_bit(i, k) ==> flip(i, k) < i,
        flip(i, k) < (1usize << n),
        flip(flip(i, k), k) == i,
        has_bit(flip(i, k), k) == !has_bit(i, k),
{
    assert(!has_bit(i, k) ==> (i | (1usize << k)) == (i ^ (1usize << k)) && (i ^ (1usize << k)) > i)
        by (bit_vector)
        requires k < 32;
    assert(has_bit(i, k) ==> (i ^ (1usize << k)) < i) by (bit_vector)
        requires k < 32;
    assert((i ^ (1usize << k)) < (1usize << n)) by (bit_vector)
        requires k < n < 32, i < (1usize << n);
    assert(((i ^ (1usize << k)) ^ (1usize << k)) == i) by (bit_vector);
    assert(((i ^ (1usize << k)) & (1usize << k) != 0) == !(i & (1usize << k) != 0)) by (bit_vector)
        requires k < 32;
}

proof fn lemma_flip_keeps(i: usize, k: usize, c: usize)
    requires
        k < 32,
        c < 32,
        c != k,
    ensures
        has_bit(flip(i, k), c) == has_bit(i, c),
{
    assert(((i ^ (1usize << k)) & (1usize << c) != 0) == (i & (1usize << c) != 0)) by (bit_vector)
        requires k < 32, c < 32, c != k;
}

proof fn lemma_dim(n: usize)
    requires
        n < 32,
    ensures
        1 <= dim(n),
        (1usize << n) > 0,
{
    assert((1usize << n) > 0) by (bit_vector)
        requires n < 32;
}

/// The state after a controlled-NOT: where the control bit is set (and the
/// control is not the target), the amplitude comes from the index with the
/// target bit flipped.
pub open spec fn cnot_spec<A>(s: Seq<A>, control: usize, target: usize) -> Seq<A> {
    Seq::new(
        s.len(),
        |i: int|
            if control != target && has_bit(i as usize, control) {
                s[flip(i as usize, target) as int]
            } else {
                s[i]
            },
    )
}

/// The amplitudes of `s[..k]` whose index has bit `t` equal to `v`, in index
/// order.
pub open spec fn select<A>(s: Seq<A>, t: usize, v: bool, k: int) -> Seq<A>
    decreases k,
{
    if k <= 0 {
        Seq::empty()
    } else if has_bit((k - 1) as usize, t) == v {
        select(s, t, v, k - 1).push(s[k - 1])
    } else {
        select(s, t, v, k - 1)
    }
}

/// The state after a Pauli-X on `target`: the amplitudes of each pair of
/// indices differing in the target bit trade places.
pub open spec fn flip_spec<A>(s: Seq<A>, target: usize) -> Seq<A> {
    Seq::new(s.len(), |i: int| s[flip(i as usize, target) as int])
}

/// A dense state vector over `num_qubits` qubits, with amplitudes of type `A`.
/// Index `i` holds the amplitude of the basis state whose qubit `k` has value
/// `has_bit(i, k)`. The arithmetic on amplitudes is supplied by the caller;
/// this type owns the index structure.
pub struct StateVector<A> {
    amps: Vec<A>,
    num_qubits: usize,
}

impl<A: Copy> StateVector<A> {
    pub closed spec fn amps(&self) -> Seq<A> {
        self.amps@
    }

    pub closed spec fn qubits(&self) -> usize {
        self.num_qubits
    }

    pub open spec fn wf(&self) -> bool {
        &&& self.qubits() < 32
        &&& self.amps().len() == dim(self.qubits())
    }

    /// The ground state over `num_qubits` qubits: `one` at index 0, `zero`
    /// elsewhere.
    pub fn new(num_qubits: usize, zero: A, one: A) -> (r: Self)
        requires
            num_qubits < 32,
        ensures
            r.wf(),
            r.qubits() == num_qubits,
            r.amps() == Seq::new(dim(num_qubits), |i: int| if i == 0 { one } else { zero }),
    {
        proof {
            lemma_dim(num_qubits);
        }
        let size: usize = 1usize << num_qubits;
        let mut amps: Vec<A> = Vec::new();
        amps.push(one);
        while amps.len() < size
            invariant
                1 <= amps@.len() <= size,
                size == dim(num_qubits),
                amps@ == Seq::new(amps@.len(), |i: int| if i == 0 { one } else { zero }),
            decreases size - amps@.len(),
        {
            amps.push(zero);
            assert(amps@ =~= Seq::new(amps@.len(), |i: int| if i == 0 { one } else { zero }));
        }
        assert(amps@ =~= Seq::new(dim(num_qubits), |i: int| if i == 0 { one } else { zero }));
        StateVector { amps, num_qubits }
    }

    /// The number of qubits.
    pub fn num_qubits(&self) -> (r: usize)
        ensures
            r == self.qubits(),
    {
        self.num_qubits
    }

    /// A read-only view of the amplitudes.
    pub fn get_state(&self) -> (r: &Vec<A>)
        ensures
            r@ == self.amps(),
    {
        &self.amps
    }

    /// Applies a single-qubit gate to `target`: for each index `i` whose
    /// target bit is clear, `gate` maps the pair of amplitudes at `i` and at
    /// `i` with that bit set to their new values.
    pub fn apply_gate_1q<F: Fn(A, A) -> (A, A)>(&mut self, target: usize, gate: F) -> (r: Result<(), QirError>)
        requires
            old(self).wf(),
            forall|a: A, b: A| gate.requires((a, b)),
        ensures
            final(self).wf(),
            final(self).qubits() == old(self).qubits(),
            r is Ok <==> target < old(self).qubits(),
            r is Err ==> r->Err_0 is SimulatorError && final(self).amps() == old(self).amps(),
            r is Ok ==> forall|i: usize|
                i < dim(old(self).qubits()) && !has_bit(i, target) ==> gate.ensures(
                    (old(self).amps()[i as int], old(self).amps()[flip(i, target) as int]),
                    (#[trigger] final(self).amps()[i as int], final(self).amps()[flip(i, target) as int]),
                ),
    {
        if target >= self.num_qubits {
            return Err(QirError::SimulatorError(String::from_str("qubit index out of range")));
        }
        let ghost old_amps = self.amps@;
        let n = self.num_qubits;
        proof {
            lemma_dim(n);
        }
        let size: usize = 1usize << n;
        let mask: usize = 1usize << target;
        let mut i: usize = 0;
        while i < size
            invariant
                self.wf(),
                self.num_qubits == n,
                target < n < 32,
                size == dim(n),
                mask == 1usize << target,
                i <= size,
                old_amps.len() == size,
                forall|a: A, b: A| gate.requires((a, b)),
                forall|k: usize|
                    k < i && !has_bit(k, target) ==> gate.ensures(
                        (old_amps[k as int], old_amps[flip(k, target) as int]),
                        (#[trigger] self.amps@[k as int], self.amps@[flip(k, target) as int]),
                    ),
                forall|k: usize|
                    i <= k < size && !has_bit(k, target) ==> #[trigger] self.amps@[k as int]
                        == old_amps[k as int],
                forall|k: usize|
                    i <= k < size && !has_bit(k, target) ==> #[trigger] self.amps@[flip(k, target) as int]
                        == old_amps[flip(k, target) as int],
            decreases size - i,
        {
            if i & mask == 0 {
                proof {
                    lemma_bits(i, target, n);
                }
                let j = i | mask;
                let c0 = self.amps[i];
                let c1 = self.amps[j];
                let (x, y) = gate(c0, c1);
                let ghost before = self.amps@;
                self.amps.set(i, x);
                self.amps.set(j, y);
                assert forall|k: usize|
                    k < i + 1 && !has_bit(k, target) implies gate.ensures(
                        (old_amps[k as int], old_amps[flip(k, target) as int]),
                        (#[trigger] self.amps@[k as int], self.amps@[flip(k, target) as int]),
                    ) by {
                    if k < i {
                        lemma_bits(k, target, n);
                        lemma_pair_distinct(k, i, target, n);
                    }
                }
                assert forall|k: usize|
                    i + 1 <= k < size && !has_bit(k, target) implies #[trigger] self.amps@[k as int]
                        == old_amps[k as int] && self.amps@[flip(k, target) as int]
                        == old_amps[flip(k, target) as int] by {
                    lemma_bits(k, target, n);
                    lemma_pair_distinct(k, i, target, n);
                    assert(before[k as int] == old_amps[k as int]);
                    assert(before[flip(k, target) as int] == old_amps[flip(k, target) as int]);
                }
                assert forall|k: usize|
                    i + 1 <= k < size && !has_bit(k, target) implies #[trigger] self.amps@[flip(k, target) as int]
                        == old_amps[flip(k, target) as int] && self.amps@[k as int]
                        == old_amps[k as int] by {
                    lemma_bits(k, target, n);
                    lemma_pair_distinct(k, i, target, n);
                    assert(before[k as int] == old_amps[k as int]);
                    assert(before[flip(k, target) as int] == old_amps[flip(k, target) as int]);
                }
            } else {
                assert(has_bit(i, target));
                assert forall|k: usize|
                    i + 1 <= k < size && !has_bit(k, target) implies #[trigger] self.amps@[k as int]
                        == old_amps[k as int] && self.amps@[flip(k, target) as int]
                        == old_amps[flip(k, target) as int] by {
                    assert(self.amps@[k as int] == old_amps[k as int]);
                    assert(self.amps@[flip(k, target) as int] == old_amps[flip(k, target) as int]);
                }
                assert forall|k: usize|
                    i + 1 <= k < size && !has_bit(k, target) implies #[trigger] self.amps@[flip(k, target) as int]
                        == old_amps[flip(k, target) as int] && self.amps@[k as int]
                        == old_amps[k as int] by {
                    assert(self.amps@[k as int] == old_amps[k as int]);
                    assert(self.amps@[flip(k, target) as int] == old_amps[flip(k, target) as int]);
                }
            }
            i = i + 1;
        }
        Ok(())
    }
}


impl<A: Copy> StateVector<A> {
    /// Applies Pauli-X to `target` by exchanging the amplitudes of each
    /// pair of indices that differ in the target bit.
    pub fn apply_x(&mut self, target: usize) -> (r: Result<(), QirError>)
        requires
            old(self).wf(),
        ensures
            final(self).wf(),
            final(self).qubits() == old(self).qubits(),
            r is Ok <==> target < old(self).qubits(),
            r is Err ==> r->Err_0 is SimulatorError && final(self).amps() == old(self).amps(),
            r is Ok ==> final(self).amps() == flip_spec(old(self).amps(), target),
    {
        let swap = |a: A, b: A| -> (p: (A, A))
            ensures
                p == (b, a),
            { (b, a) };
        let ghost old_amps = self.amps@;
        let r = self.apply_gate_1q(target, swap);
        if r.is_ok() {
            let n = self.num_qubits;
            assert forall|i: int| 0 <= i < self.amps@.len() implies #[trigger] self.amps@[i]
                == flip_spec(old_amps, target)[i] by {
                let iu = i as usize;
                lemma_bits(iu, target, n);
                if has_bit(iu, target) {
                    let p = flip(iu, target);
                    lemma_bits(p, target, n);
                    assert(flip(p, target) == iu);
                }
            }
            assert(self.amps@ =~= flip_spec(old_amps, target));
        }
        r
    }

    /// Applies a controlled-NOT: for every index with the control bit set and
    /// the target bit clear, exchanges its amplitude with that of the index
    /// with the target bit set too.
    pub fn apply_cnot(&mut self, control: usize, target: usize) -> (r: Result<(), QirError>)
        requires
            old(self).wf(),
        ensures
            final(self).wf(),
            final(self).qubits() == old(self).qubits(),
            r is Ok <==> control < old(self).qubits() && target < old(self).qubits(),
            r is Err ==> r->Err_0 is SimulatorError && final(self).amps() == old(self).amps(),
            r is Ok ==> final(self).amps() == cnot_spec(old(self).amps(), control, target),
    {
        if control >= self.num_qubits || target >= self.num_qubits {
            return Err(QirError::SimulatorError(String::from_str("qubit index out of range")));
        }
        let ghost old_amps = self.amps@;
        if control == target {
            assert(self.amps@ =~= cnot_spec(old_amps, control, target));
            return Ok(());
        }
        let n = self.num_qubits;
        proof {
            lemma_dim(n);
        }
        let size: usize = 1usize << n;
        let c_mask: usize = 1usize << control;
        let t_mask: usize = 1usize << target;
        let mut i: usize = 0;
        while i < size
            invariant
                self.wf(),
                self.num_qubits == n,
                control < n < 32,
                target < n,
                control != target,
                size == dim(n),
                c_mask == 1usize << control,
                t_mask == 1usize << target,
                i <= size,
                old_amps.len() == size,
                forall|k: usize|
                    k < size ==> #[trigger] self.amps@[k as int] == if has_bit(k, control) && ((
                    !has_bit(k, target) && k < i) || (has_bit(k, target) && flip(k, target) < i)) {
                        old_amps[flip(k, target) as int]
                    } else {
                        old_amps[k as int]
                    },
            decreases size - i,
        {
            proof {
                lemma_bits(i, target, n);
                lemma_flip_keeps(i, target, control);
            }
            if i & c_mask != 0 && i & t_mask == 0 {
                let j = i | t_mask;
                let a = self.amps[i];
                let b = self.amps[j];
                let ghost before = self.amps@;
                self.amps.set(i, b);
                self.amps.set(j, a);
                assert forall|k: usize| k < size implies #[trigger] self.amps@[k as int]
                    == if has_bit(k, control) && ((!has_bit(k, target) && k < i + 1) || (has_bit(
                    k, target) && flip(k, target) < i + 1)) {
                    old_amps[flip(k, target) as int]
                } else {
                    old_amps[k as int]
                } by {
                    lemma_bits(k, target, n);
                    lemma_flip_keeps(k, target, control);
                    assert(before[k as int] == old_amps[k as int] || true);
                    if k == i {
                        assert(before[j as int] == old_amps[j as int]);
                    } else if k == j {
                        assert(before[i as int] == old_amps[i as int]);
                    } else {
                        assert(flip(k, target) != i);
                        assert(before[k as int] == self.amps@[k as int]);
                    }
                }
            } else {
                assert forall|k: usize| k < size implies #[trigger] self.amps@[k as int]
                    == if has_bit(k, control) && ((!has_bit(k, target) && k < i + 1) || (has_bit(
                    k, target) && flip(k, target) < i + 1)) {
                    old_amps[flip(k, target) as int]
                } else {
                    old_amps[k as int]
                } by {
                    lemma_bits(k, target, n);
                    lemma_flip_keeps(k, target, control);
                    if flip(k, target) == i {
                        assert(k == flip(i, target));
                    }
                }
            }
            i = i + 1;
        }
        assert forall|k: int| 0 <= k < size implies #[trigger] self.amps@[k]
            == cnot_spec(old_amps, control, target)[k] by {
            lemma_bits(k as usize, target, n);
        }
        assert(self.amps@ =~= cnot_spec(old_amps, control, target));
        Ok(())
    }

    /// Applies a controlled-Z: `negate` maps each amplitude whose index has
    /// both the control and the target bit set.
    pub fn apply_cz<F: Fn(A) -> A>(&mut self, control: usize, target: usize, negate: F) -> (r: Result<(), QirError>)
        requires
            old(self).wf(),
            forall|a: A| negate.requires((a,)),
        ensures
            final(self).wf(),
            final(self).qubits() == old(self).qubits(),
            r is Ok <==> control < old(self).qubits() && target < old(self).qubits(),
            r is Err ==> r->Err_0 is SimulatorError && final(self).amps() == old(self).amps(),
            r is Ok ==> forall|i: usize|
                i < dim(old(self).qubits()) ==> if has_bit(i, control) && has_bit(i, target) {
                    negate.ensures((old(self).amps()[i as int],), #[trigger] final(self).amps()[i as int])
                } else {
                    final(self).amps()[i as int] == old(self).amps()[i as int]
                },
    {
        if control >= self.num_qubits || target >= self.num_qubits {
            return Err(QirError::SimulatorError(String::from_str("qubit index out of range")));
        }
        let ghost old_amps = self.amps@;
        let n = self.num_qubits;
        proof {
            lemma_dim(n);
        }
        let size: usize = 1usize << n;
        let c_mask: usize = 1usize << control;
        let t_mask: usize = 1usize << target;
        let mut i: usize = 0;
        while i < size
            invariant
                self.wf(),
                self.num_qubits == n,
                n < 32,
                size == dim(n),
                c_mask == 1usize << control,
                t_mask == 1usize << target,
                i <= size,
                old_amps.len() == size,
                forall|a: A| negate.requires((a,)),
                forall|k: usize|
                    k < size ==> if k < i && has_bit(k, control) && has_bit(k, target) {
                        negate.ensures((old_amps[k as int],), #[trigger] self.amps@[k as int])
                    } else {
                        self.amps@[k as int] == old_amps[k as int]
                    },
            decreases size - i,
        {
            if i & c_mask != 0 && i & t_mask != 0 {
                let a = negate(self.amps[i]);
                self.amps.set(i, a);
            }
            i = i + 1;
        }
        Ok(())
    }

    /// The amplitudes whose index has bit `target` equal to `value`, in index
    /// order: the branch of a measurement of `target` with that outcome.
    pub fn amplitudes_where(&self, target: usize, value: bool) -> (r: Vec<A>)
        requires
            self.wf(),
            target < self.qubits(),
        ensures
            r@ == select(self.amps(), target, value, self.amps().len() as int),
    {
        let mut r: Vec<A> = Vec::new();
        let mut i: usize = 0;
        let size = self.amps.len();
        while i < size
            invariant
                size == self.amps@.len(),
                target < 32,
                i <= size,
                r@ == select(self.amps@, target, value, i as int),
            decreases size - i,
        {
            if (i & (1usize << target) != 0) == value {
                r.push(self.amps[i]);
            }
            i = i + 1;
        }
        r
    }

    /// Collapses the state onto outcome `outcome` of a measurement of
    /// `target`: amplitudes of the drawn branch are mapped by `rescale`, all
    /// others become `zero`.
    pub fn collapse<F: Fn(A) -> A>(&mut self, target: usize, outcome: bool, rescale: F, zero: A) -> (r: Result<(), QirError>)
        requires
            old(self).wf(),
            forall|a: A| rescale.requires((a,)),
        ensures
            final(self).wf(),
            final(self).qubits() == old(self).qubits(),
            r is Ok <==> target < old(self).qubits(),
            r is Err ==> r->Err_0 is SimulatorError && final(self).amps() == old(self).amps(),
            r is Ok ==> forall|i: usize|
                i < dim(old(self).qubits()) ==> if has_bit(i, target) == outcome {
                    rescale.ensures((old(self).amps()[i as int],), #[trigger] final(self).amps()[i as int])
                } else {
                    final(self).amps()[i as int] == zero
                },
    {
        if target >= self.num_qubits {
            return Err(QirError::SimulatorError(String::from_str("qubit index out of range")));
        }
        let ghost old_amps = self.amps@;
        let n = self.num_qubits;
        proof {
            lemma_dim(n);
        }
        let size: usize = 1usize << n;
        let mask: usize = 1usize << target;
        let mut i: usize = 0;
        while i < size
            invariant
                self.wf(),
                self.num_qubits == n,
                n < 32,
                size == dim(n),
                mask == 1usize << target,
                i <= size,
                old_amps.len() == size,
                forall|a: A| rescale.requires((a,)),
                forall|k: usize|
                    k < size ==> if k >= i {
                        #[trigger] self.amps@[k as int] == old_amps[k as int]
                    } else if has_bit(k, target) == outcome {
                        rescale.ensures((old_amps[k as int],), self.amps@[k as int])
                    } else {
                        self.amps@[k as int] == zero
                    },
            decreases size - i,
        {
            if (i & mask != 0) == outcome {
                let a = rescale(self.amps[i]);
                self.amps.set(i, a);
            } else {
                self.amps.set(i, zero);
            }
            i = i + 1;
        }
        Ok(())
    }
}

/// A controlled-NOT applied twice with the same control and target leaves
/// every state as it was.
pub proof fn lemma_cnot_twice<A>(s: Seq<A>, n: usize, control: usize, target: usize)
    requires
        n < 32,
        control < n,
        target < n,
        s.len() == dim(n),
    ensures
        cnot_spec(cnot_spec(s, control, target), control, target) == s,
{
    let once = cnot_spec(s, control, target);
    assert forall|i: int| 0 <= i < s.len() implies #[trigger] cnot_spec(once, control, target)[i]
        == s[i] by {
        let iu = i as usize;
        lemma_bits(iu, target, n);
        if control != target {
            lemma_flip_keeps(iu, target, control);
        }
    }
    assert(cnot_spec(once, control, target) =~= s);
}

/// Pauli-X applied twice to the same qubit leaves every state as it was.
pub proof fn lemma_x_twice<A>(s: Seq<A>, n: usize, target: usize)
    requires
        n < 32,
        target < n,
        s.len() == dim(n),
    ensures
        flip_spec(flip_spec(s, target), target) == s,
{
    assert forall|i: int| 0 <= i < s.len() implies #[trigger] flip_spec(flip_spec(s, target), target)[i]
        == s[i] by {
        lemma_bits(i as usize, target, n);
    }
    assert(flip_spec(flip_spec(s, target), target) =~= s);
}

/// Two distinct indices with bit `t` clear, and their partners, are four
/// distinct positions.
proof fn lemma_pair_distinct(k: usize, i: usize, t: usize, n: usize)
    requires
        t < n < 32,
        k != i,
        !has_bit(k, t),
        !has_bit(i, t),
    ensures
        flip(k, t) != flip(i, t),
        flip(k, t) != i,
        flip(i, t) != k,
{
    assert((k ^ (1usize << t)) != (i ^ (1usize << t))) by (bit_vector)
        requires k != i;
    assert(((k ^ (1usize << t)) & (1usize << t)) != 0) by (bit_vector)
        requires t < 32, (k & (1usize << t)) == 0;
    assert(((i ^ (1usize << t)) & (1usize << t)) != 0) by (bit_vector)
        requires t < 32, (i & (1usize << t)) == 0;
}

} // verus!
