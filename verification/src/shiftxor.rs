//! The shift-and-XOR accumulator that ties the key block to every absorbed byte.
//!
//! Data is absorbed in blocks of `N` bytes. Each block is rotated by an amount that the seed
//! prescribes for its position in the stream, and all rotated blocks are XORed together. The
//! result, XORed with the encryption key, is the key block. Whoever holds the seed and all of the
//! data can undo that last XOR and get the key back.
//!
//! The schedule of rotations is defined here, by `shift_amount`. A device has to run the same one.

use vstd::prelude::*;

verus! {

/// Bytewise XOR of two sequences of the same length.
pub open spec fn xor_bytes(a: Seq<u8>, b: Seq<u8>) -> Seq<u8> {
    Seq::new(a.len(), |j: int| a[j] ^ b[j])
}

/// `len` zero bytes.
pub open spec fn zero_bytes(len: nat) -> Seq<u8> {
    Seq::new(len, |j: int| 0u8)
}

/// The block with its first `amount` bytes moved to its end.
pub open spec fn rotate_left(block: Seq<u8>, amount: nat) -> Seq<u8> {
    Seq::new(block.len(), |j: int| block[(j + amount) % (block.len() as int)])
}

/// How many bytes the block with the given index in the stream is rotated by. The seed's bytes
/// are used in turn.
pub open spec fn shift_amount(seed: Seq<u8>, index: nat) -> nat {
    seed[(index % seed.len()) as int] as nat % seed.len()
}

/// XOR of all blocks of `data`, each rotated by the amount that the seed gives for it. The block
/// size is the length of the seed.
pub open spec fn digest(seed: Seq<u8>, data: Seq<u8>) -> Seq<u8>
    decreases data.len(),
{
    let n = seed.len();
    if n == 0 || data.len() < n {
        zero_bytes(n)
    } else {
        let rest = data.take(data.len() - n);
        let last = data.skip(data.len() - n);
        xor_bytes(digest(seed, rest), rotate_left(last, shift_amount(seed, rest.len() / n)))
    }
}

/// The block that is sent to the device: the key, masked with the digest of the data.
pub open spec fn key_block(seed: Seq<u8>, key: Seq<u8>, data: Seq<u8>) -> Seq<u8> {
    xor_bytes(key, digest(seed, data))
}

/// What a `ShiftXor` stands for: the seed and the key that it was made with, and everything that
/// it has absorbed since.
pub struct ShiftXorState {
    pub seed: Seq<u8>,
    pub key: Seq<u8>,
    pub absorbed: Seq<u8>,
}

/// Running shift-and-XOR computation over blocks of `N` bytes.
pub struct ShiftXor<const N: usize> {
    seed: [u8; N],
    block: [u8; N],
    /// Number of absorbed blocks, modulo `N`.
    position: usize,
    key: Ghost<Seq<u8>>,
    absorbed: Ghost<Seq<u8>>,
}

impl<const N: usize> View for ShiftXor<N> {
    type V = ShiftXorState;

    closed spec fn view(&self) -> ShiftXorState {
        ShiftXorState { seed: self.seed@, key: self.key@, absorbed: self.absorbed@ }
    }
}

impl<const N: usize> ShiftXor<N> {
    /// The accumulator holds the key block of what has been absorbed, which is a whole number of
    /// blocks.
    pub closed spec fn wf(&self) -> bool {
        &&& N > 0
        &&& self.key@.len() == N
        &&& self.absorbed@.len() % (N as nat) == 0
        &&& self.position == (self.absorbed@.len() / (N as nat)) % (N as nat)
        &&& self.block@ == key_block(self.seed@, self.key@, self.absorbed@)
    }

    /// Starts with nothing absorbed.
    pub fn new(seed: &[u8; N], key: &[u8; N]) -> (res: Self)
        requires
            N > 0,
        ensures
            res.wf(),
            res@.seed == seed@,
            res@.key == key@,
            res@.absorbed == Seq::<u8>::empty(),
    {
        let res = ShiftXor {
            seed: *seed,
            block: *key,
            position: 0,
            key: Ghost(key@),
            absorbed: Ghost(Seq::empty()),
        };
        proof {
            lemma_xor_zero(key@);
            vstd::arithmetic::div_mod::lemma_small_mod(0, N as nat);
            vstd::arithmetic::div_mod::lemma_div_of0(N as int);
            assert(digest(seed@, Seq::<u8>::empty()) == zero_bytes(N as nat));
        }
        res
    }

    /// The seed, to be sent to the device.
    pub fn seed(&self) -> (res: &[u8; N])
        ensures
            res@ == self@.seed,
    {
        &self.seed
    }

    /// The key block of everything absorbed so far.
    pub fn key(&self) -> (res: &[u8; N])
        requires
            self.wf(),
        ensures
            res@ == key_block(self@.seed, self@.key, self@.absorbed),
            forall|j: int|
                0 <= j < N ==> res@[j] == self@.key[j] ^ digest(self@.seed, self@.absorbed)[j],
    {
        &self.block
    }

    /// Mixes one block into the accumulator.
    #[verifier::spinoff_prover]
    fn absorb_block(&mut self, data: &[u8], start: usize)
        requires
            old(self).wf(),
            start + N <= data.len(),
        ensures
            final(self).wf(),
            final(self)@.seed == old(self)@.seed,
            final(self)@.key == old(self)@.key,
            final(self)@.absorbed == old(self)@.absorbed + data@.subrange(start as int, start + N),
    {
        let ghost last = data@.subrange(start as int, start + N);
        let ghost before = *old(self);
        let shift: usize = self.seed[self.position] as usize % N;
        let ghost index = before.absorbed@.len() / (N as nat);
        assert(shift as nat == shift_amount(self.seed@, index));
        let mut j: usize = 0;
        while j < N
            invariant
                N > 0,
                j <= N,
                shift < N,
                start + N <= data.len(),
                last == data@.subrange(start as int, start + N),
                self.seed == before.seed,
                self.position == before.position,
                self.key == before.key,
                self.absorbed == before.absorbed,
                forall|i: int|
                    0 <= i < j ==> self.block@[i] == before.block@[i] ^ rotate_left(
                        last,
                        shift as nat,
                    )[i],
                forall|i: int| j <= i < N ==> self.block@[i] == before.block@[i],
            decreases N - j,
        {
            let source: usize = if j < N - shift {
                j + shift
            } else {
                j - (N - shift)
            };
            assert(source == (j + shift) % (N as int)) by {
                if j < N - shift {
                    vstd::arithmetic::div_mod::lemma_small_mod((j + shift) as nat, N as nat);
                } else {
                    vstd::arithmetic::div_mod::lemma_fundamental_div_mod_converse(
                        j + shift,
                        N as int,
                        1,
                        source as int,
                    );
                }
            }
            assert(last[source as int] == data@[start + source]);
            self.block[j] = self.block[j] ^ data[start + source];
            j += 1;
        }
        self.position = if self.position + 1 < N {
            self.position + 1
        } else {
            0
        };
        proof {
            self.absorbed@ = before.absorbed@ + last;
            lemma_next_position(before.absorbed@.len(), N as nat);
            lemma_digest_push(self.seed@, before.absorbed@, last);
            let rotated = rotate_left(last, shift as nat);
            lemma_digest_len(self.seed@, before.absorbed@);
            assert(self.block@ =~= xor_bytes(before.block@, rotated));
            lemma_xor_assoc(before.key@, digest(self.seed@, before.absorbed@), rotated);
        }
    }

    /// Absorbs a whole number of blocks.
    pub fn absorb(&mut self, data: &[u8])
        requires
            old(self).wf(),
            data@.len() % (N as nat) == 0,
        ensures
            final(self).wf(),
            final(self)@.seed == old(self)@.seed,
            final(self)@.key == old(self)@.key,
            final(self)@.absorbed == old(self)@.absorbed + data@,
    {
        let ghost before = old(self)@;
        let mut done: usize = 0;
        assert(data@.take(0) =~= Seq::<u8>::empty());
        assert(before.absorbed + Seq::<u8>::empty() =~= before.absorbed);
        while done < data.len()
            invariant
                self.wf(),
                N > 0,
                done <= data@.len(),
                done as nat % (N as nat) == 0,
                data@.len() % (N as nat) == 0,
                self@.seed == before.seed,
                self@.key == before.key,
                self@.absorbed == before.absorbed + data@.take(done as int),
            decreases data@.len() - done,
        {
            proof {
                lemma_room_for_block(done as nat, data@.len(), N as nat);
            }
            self.absorb_block(data, done);
            proof {
                assert(data@.take(done + N) =~= data@.take(done as int) + data@.subrange(
                    done as int,
                    done + N,
                ));
                assert(before.absorbed + data@.take(done as int) + data@.subrange(
                    done as int,
                    done + N,
                ) =~= before.absorbed + data@.take(done + N));
                vstd::arithmetic::div_mod::lemma_mod_add_multiples_vanish(done as int, N as int);
            }
            done += N;
        }
        assert(data@.take(data@.len() as int) =~= data@);
    }
}

/// Each byte of the key block is the key's byte, masked with the digest's byte.
pub proof fn law_key_block_masks_key(seed: Seq<u8>, key: Seq<u8>, data: Seq<u8>)
    requires
        key.len() == seed.len(),
    ensures
        key_block(seed, key, data).len() == key.len(),
        digest(seed, data).len() == seed.len(),
        forall|j: int|
            0 <= j < key.len() ==> key_block(seed, key, data)[j] == key[j] ^ digest(seed, data)[j],
{
    lemma_digest_len(seed, data);
}

/// Zero bytes are as many as asked for, and zero.
pub proof fn law_zero_bytes(len: nat)
    ensures
        zero_bytes(len).len() == len,
        forall|i: int| 0 <= i < len ==> zero_bytes(len)[i] == 0,
{
}

/// What a single block contributes: where everything but the block with index `k` is zero, byte `j`
/// of the digest is the byte of that block that lies as many places behind `j`, around the end of
/// the block, as the seed's byte `k` (around the end of the seed) says.
pub proof fn law_digest_of_one_block(seed: Seq<u8>, data: Seq<u8>, k: nat)
    requires
        seed.len() > 0,
        data.len() % seed.len() == 0,
        (k + 1) * seed.len() <= data.len(),
        forall|i: int|
            0 <= i < data.len() && !(k * seed.len() <= i < (k + 1) * seed.len()) ==> data[i] == 0,
    ensures
        digest(seed, data).len() == seed.len(),
        forall|j: int|
            #![trigger digest(seed, data)[j]]
            0 <= j < seed.len() ==> digest(seed, data)[j] == data[k * seed.len() + (j + seed[(k
                % seed.len()) as int]) % (seed.len() as int)],
    decreases data.len(),
{
    let n = seed.len();
    let m = n as int;
    lemma_digest_len(seed, data);
    assert((k + 1) * n == k * n + n) by (nonlinear_arith);
    let split = data.len() - n;
    let (rest, last) = (data.take(split), data.skip(split));
    let amount = shift_amount(seed, rest.len() / n);
    lemma_digest_len(seed, rest);
    vstd::arithmetic::div_mod::lemma_mod_sub_multiples_vanish(data.len() as int, m);
    lemma_block_boundary(k, split as nat, n);
    if k * n == split {
        assert(rest.len() / n == k) by {
            vstd::arithmetic::div_mod::lemma_div_multiples_vanish(k as int, m);
            vstd::arithmetic::mul::lemma_mul_is_commutative(k as int, m);
        }
        lemma_digest_of_zeros(seed, rest);
        assert forall|j: int| #![trigger digest(seed, data)[j]] 0 <= j < n implies digest(
            seed,
            data,
        )[j] == data[k * n + (j + seed[(k % n) as int]) % m] by {
            let s = seed[(k % n) as int] as int;
            vstd::arithmetic::div_mod::lemma_add_mod_noop_right(j, s, m);
            vstd::arithmetic::div_mod::lemma_mod_bound(j + s, m);
            let x = last[(j + s) % m];
            assert(0u8 ^ x == x) by (bit_vector);
            assert(digest(seed, data)[j] == digest(seed, rest)[j] ^ last[(j + amount) % m]);
        }
    } else {
        assert forall|i: int|
            0 <= i < rest.len() && !(k * n <= i < (k + 1) * n) implies rest[i] == 0 by {
            assert(data[i] == 0);
        }
        law_digest_of_one_block(seed, rest, k);
        assert forall|j: int| #![trigger digest(seed, data)[j]] 0 <= j < n implies digest(
            seed,
            data,
        )[j] == data[k * n + (j + seed[(k % n) as int]) % m] by {
            let at = (j + amount) % m;
            vstd::arithmetic::div_mod::lemma_mod_bound(j + amount, m);
            vstd::arithmetic::div_mod::lemma_mod_bound(j + seed[(k % n) as int], m);
            assert(last[at] == data[split + at]);
            assert(last[at] == 0);
            let x = digest(seed, rest)[j];
            assert(x ^ 0u8 == x) by (bit_vector);
            assert(digest(seed, data)[j] == x ^ last[at]);
        }
    }
}

/// The digest of the bytewise XOR of two streams is the XOR of their digests. With what a single
/// block contributes, this fixes the digest of every stream.
pub proof fn law_digest_is_linear(seed: Seq<u8>, a: Seq<u8>, b: Seq<u8>, both: Seq<u8>)
    requires
        seed.len() > 0,
        a.len() == b.len() == both.len(),
        a.len() % seed.len() == 0,
        forall|i: int| 0 <= i < both.len() ==> both[i] == a[i] ^ b[i],
    ensures
        digest(seed, both).len() == seed.len(),
        forall|j: int|
            #![trigger digest(seed, both)[j]]
            0 <= j < seed.len() ==> digest(seed, both)[j] == digest(seed, a)[j] ^ digest(
                seed,
                b,
            )[j],
    decreases a.len(),
{
    let n = seed.len();
    let m = n as int;
    lemma_digest_len(seed, both);
    if a.len() >= n {
        let split = a.len() - n;
        vstd::arithmetic::div_mod::lemma_mod_sub_multiples_vanish(a.len() as int, m);
        let (p, q, r) = (a.take(split), b.take(split), both.take(split));
        law_digest_is_linear(seed, p, q, r);
        lemma_digest_len(seed, p);
        lemma_digest_len(seed, q);
        let amount = shift_amount(seed, (split / m) as nat);
        assert forall|j: int| #![trigger digest(seed, both)[j]] 0 <= j < n implies digest(
            seed,
            both,
        )[j] == digest(seed, a)[j] ^ digest(seed, b)[j] by {
            let at = (j + amount) % m;
            vstd::arithmetic::div_mod::lemma_mod_bound(j + amount, m);
            let (x, y) = (digest(seed, p)[j], digest(seed, q)[j]);
            let (u, v) = (a[split + at], b[split + at]);
            assert(both[split + at] == u ^ v);
            assert(digest(seed, r)[j] == x ^ y);
            assert(digest(seed, a)[j] == x ^ u);
            assert(digest(seed, b)[j] == y ^ v);
            assert(digest(seed, both)[j] == (x ^ y) ^ (u ^ v));
            assert((x ^ y) ^ (u ^ v) == (x ^ u) ^ (y ^ v)) by (bit_vector);
        }
    } else {
        assert forall|j: int| #![trigger digest(seed, both)[j]] 0 <= j < n implies digest(
            seed,
            both,
        )[j] == digest(seed, a)[j] ^ digest(seed, b)[j] by {
            assert(0u8 ^ 0u8 == 0u8) by (bit_vector);
        }
    }
}

/// The seed matters: two seeds that prescribe different shifts for a block give it different
/// digests, if no byte occurs twice in the block.
pub proof fn law_seed_decides_digest(first: Seq<u8>, second: Seq<u8>, data: Seq<u8>, k: nat)
    requires
        first.len() > 0,
        second.len() == first.len(),
        data.len() % first.len() == 0,
        (k + 1) * first.len() <= data.len(),
        forall|i: int|
            0 <= i < data.len() && !(k * first.len() <= i < (k + 1) * first.len()) ==> data[i] == 0,
        forall|i: int, j: int|
            k * first.len() <= i < j < (k + 1) * first.len() ==> data[i] != data[j],
        first[(k % first.len()) as int] as nat % first.len() != second[(k
            % first.len()) as int] as nat % first.len(),
    ensures
        digest(first, data) != digest(second, data),
{
    let n = first.len();
    law_digest_of_one_block(first, data, k);
    law_digest_of_one_block(second, data, k);
    assert((k + 1) * n == k * n + n) by (nonlinear_arith);
    let (s, t) = (first[(k % n) as int], second[(k % n) as int]);
    let (a, b) = ((0 + s as int) % (n as int), (0 + t as int) % (n as int));
    assert(digest(first, data)[0] == data[k * n + a]);
    assert(digest(second, data)[0] == data[k * n + b]);
    assert(a != b);
    vstd::arithmetic::div_mod::lemma_mod_bound(s as int, n as int);
    vstd::arithmetic::div_mod::lemma_mod_bound(t as int, n as int);
    if a < b {
        assert(data[k * n + a] != data[k * n + b]);
    } else {
        assert(data[k * n + b] != data[k * n + a]);
    }
}

/// A block that fits into the stream is its last block, or ends before it.
proof fn lemma_block_boundary(k: nat, split: nat, n: nat)
    requires
        n > 0,
        split % n == 0,
        (k + 1) * n <= split + n,
    ensures
        k * n == split || (k + 1) * n <= split,
{
    vstd::arithmetic::div_mod::lemma_fundamental_div_mod(split as int, n as int);
    let (q, m, i) = ((split / n) as int, n as int, k as int);
    assert((i + 1) * m == i * m + m) by (nonlinear_arith);
    assert(m * q == q * m) by (nonlinear_arith);
    assert(i * m <= q * m && m > 0 ==> i <= q) by (nonlinear_arith);
    assert(i + 1 <= q && m > 0 ==> (i + 1) * m <= q * m) by (nonlinear_arith);
}

proof fn lemma_digest_of_zeros(seed: Seq<u8>, data: Seq<u8>)
    requires
        seed.len() > 0,
        data.len() % seed.len() == 0,
        forall|i: int| 0 <= i < data.len() ==> data[i] == 0,
    ensures
        forall|j: int| 0 <= j < seed.len() ==> digest(seed, data)[j] == 0,
    decreases data.len(),
{
    let n = seed.len();
    let m = n as int;
    if data.len() >= n {
        let split = data.len() - n;
        vstd::arithmetic::div_mod::lemma_mod_sub_multiples_vanish(data.len() as int, m);
        let (rest, last) = (data.take(split), data.skip(split));
        lemma_digest_of_zeros(seed, rest);
        lemma_digest_len(seed, rest);
        let amount = shift_amount(seed, rest.len() / n);
        assert forall|j: int| 0 <= j < n implies digest(seed, data)[j] == 0 by {
            let at = (j + amount) % m;
            vstd::arithmetic::div_mod::lemma_mod_bound(j + amount, m);
            assert(last[at] == data[split + at]);
            assert(digest(seed, data)[j] == digest(seed, rest)[j] ^ last[at]);
            assert(0u8 ^ 0u8 == 0u8) by (bit_vector);
        }
    }
}

/// A device that masks the key block again, with the same seed and the same data, gets the key.
pub proof fn law_device_recovers_key(seed: Seq<u8>, key: Seq<u8>, data: Seq<u8>)
    requires
        key.len() == seed.len(),
    ensures
        key_block(seed, key_block(seed, key, data), data) == key,
{
    lemma_digest_len(seed, data);
    let mask = digest(seed, data);
    assert forall|j: int| 0 <= j < key.len() implies xor_bytes(xor_bytes(key, mask), mask)[j]
        == key[j] by {
        let (x, m) = (key[j], mask[j]);
        assert((x ^ m) ^ m == x) by (bit_vector);
    }
    assert(xor_bytes(xor_bytes(key, mask), mask) =~= key);
}

/// With other data the device gets the key exactly when that data happens to have the same
/// digest.
pub proof fn law_recovery_needs_digest(
    seed: Seq<u8>,
    key: Seq<u8>,
    data: Seq<u8>,
    other: Seq<u8>,
)
    requires
        key.len() == seed.len(),
    ensures
        key_block(seed, key_block(seed, key, data), other) == key <==> digest(seed, other)
            == digest(seed, data),
{
    lemma_digest_len(seed, data);
    lemma_digest_len(seed, other);
    law_device_recovers_key(seed, key, data);
    let (mask, wrong) = (digest(seed, data), digest(seed, other));
    let got = key_block(seed, key_block(seed, key, data), other);
    if got == key {
        assert forall|j: int| 0 <= j < seed.len() implies wrong[j] == mask[j] by {
            let (x, m, w) = (key[j], mask[j], wrong[j]);
            assert(got[j] == (x ^ m) ^ w);
            assert((x ^ m) ^ w == x ==> w == m) by (bit_vector);
        }
        assert(wrong =~= mask);
    }
}

/// Data that is wrong within a single block, and right everywhere else, does not give the key.
pub proof fn law_wrong_block_is_detected(
    seed: Seq<u8>,
    key: Seq<u8>,
    data: Seq<u8>,
    other: Seq<u8>,
    index: nat,
)
    requires
        seed.len() > 0,
        key.len() == seed.len(),
        data.len() % seed.len() == 0,
        other.len() == data.len(),
        other != data,
        forall|i: int|
            0 <= i < data.len() && other[i] != data[i] ==> index * seed.len() <= i < (index + 1)
                * seed.len(),
    ensures
        key_block(seed, key_block(seed, key, data), other) != key,
{
    lemma_one_block_changes_digest(seed, data, other, index);
    law_recovery_needs_digest(seed, key, data, other);
}

#[verifier::spinoff_prover]
proof fn lemma_one_block_changes_digest(seed: Seq<u8>, data: Seq<u8>, other: Seq<u8>, index: nat)
    requires
        seed.len() > 0,
        data.len() % seed.len() == 0,
        other.len() == data.len(),
        other != data,
        forall|i: int|
            0 <= i < data.len() && other[i] != data[i] ==> index * seed.len() <= i < (index + 1)
                * seed.len(),
    ensures
        digest(seed, data) != digest(seed, other),
    decreases data.len(),
{
    let n = seed.len();
    if forall|i: int| 0 <= i < data.len() ==> other[i] == data[i] {
        assert(other =~= data);
    }
    let at = choose|i: int| 0 <= i < data.len() && other[i] != data[i];
    lemma_room_for_block(0, data.len(), n);
    let split = data.len() - n;
    let (rest, last) = (data.take(split), data.skip(split));
    let (other_rest, other_last) = (other.take(split), other.skip(split));
    let amount = shift_amount(seed, rest.len() / n);
    lemma_digest_len(seed, rest);
    lemma_digest_len(seed, other_rest);
    vstd::arithmetic::div_mod::lemma_mod_sub_multiples_vanish(data.len() as int, n as int);
    if rest == other_rest {
        assert(at >= split) by {
            if at < split {
                assert(rest[at] == other_rest[at]);
            }
        }
        let k = at - split;
        let j = if k >= amount {
            k - amount
        } else {
            k - amount + n
        };
        assert((j + amount) % (n as int) == k) by {
            if k >= amount {
                vstd::arithmetic::div_mod::lemma_small_mod(k as nat, n);
            } else {
                vstd::arithmetic::div_mod::lemma_fundamental_div_mod_converse(
                    j + amount,
                    n as int,
                    1,
                    k,
                );
            }
        }
        let d = digest(seed, rest)[j];
        let (x, y) = (last[k], other_last[k]);
        assert(x != y);
        assert(digest(seed, data)[j] == d ^ x);
        assert(digest(seed, other)[j] == d ^ y);
        assert(d ^ x == d ^ y ==> x == y) by (bit_vector);
    } else {
        assert forall|i: int| 0 <= i < rest.len() && other_rest[i] != rest[i] implies index * n <= i
            < (index + 1) * n by {
            assert(other[i] != data[i]);
        }
        lemma_one_block_changes_digest(seed, rest, other_rest, index);
        let b = choose|i: int| 0 <= i < rest.len() && other_rest[i] != rest[i];
        assert(exists|i: int| 0 <= i < rest.len() && other_rest[i] != rest[i]) by {
            if forall|i: int| 0 <= i < rest.len() ==> other_rest[i] == rest[i] {
                assert(other_rest =~= rest);
            }
        }
        assert(other[b] != data[b]);
        assert(last =~= other_last) by {
            assert forall|i: int| 0 <= i < n implies last[i] == other_last[i] by {
                if last[i] != other_last[i] {
                    assert(other[split + i] != data[split + i]);
                    lemma_blocks_apart(index, b, split + i, split as nat, n);
                }
            }
        }
        let (p, q) = (digest(seed, rest), digest(seed, other_rest));
        if forall|j: int| 0 <= j < n ==> p[j] == q[j] {
            assert(p =~= q);
        }
        let j = choose|j: int| 0 <= j < n && p[j] != q[j];
        let (x, y, r) = (p[j], q[j], rotate_left(last, amount)[j]);
        assert(digest(seed, data)[j] == x ^ r);
        assert(digest(seed, other)[j] == y ^ r);
        assert(x ^ r == y ^ r ==> x == y) by (bit_vector);
    }
}

/// No block of `n` bytes has a byte on both sides of a block boundary.
proof fn lemma_blocks_apart(index: nat, a: int, b: int, split: nat, n: nat)
    requires
        n > 0,
        split % n == 0,
        a < split <= b,
        index * n <= a < (index + 1) * n,
    ensures
        !(index * n <= b < (index + 1) * n),
{
    vstd::arithmetic::div_mod::lemma_fundamental_div_mod(split as int, n as int);
    let (q, m, i) = ((split / n) as int, n as int, index as int);
    assert(i * m < m * q && m > 0 ==> i < q) by (nonlinear_arith);
    assert(i + 1 <= q && m > 0 ==> (i + 1) * m <= m * q) by (nonlinear_arith);
}

proof fn lemma_xor_zero(a: Seq<u8>)
    ensures
        xor_bytes(a, zero_bytes(a.len())) == a,
{
    assert forall|j: int| 0 <= j < a.len() implies xor_bytes(a, zero_bytes(a.len()))[j] == a[j] by {
        let x = a[j];
        assert(x ^ 0u8 == x) by (bit_vector);
    }
    assert(xor_bytes(a, zero_bytes(a.len())) =~= a);
}

proof fn lemma_xor_assoc(a: Seq<u8>, b: Seq<u8>, c: Seq<u8>)
    requires
        a.len() == b.len() == c.len(),
    ensures
        xor_bytes(xor_bytes(a, b), c) == xor_bytes(a, xor_bytes(b, c)),
{
    assert forall|j: int| 0 <= j < a.len() implies xor_bytes(xor_bytes(a, b), c)[j] == xor_bytes(
        a,
        xor_bytes(b, c),
    )[j] by {
        let (x, y, z) = (a[j], b[j], c[j]);
        assert((x ^ y) ^ z == x ^ (y ^ z)) by (bit_vector);
    }
    assert(xor_bytes(xor_bytes(a, b), c) =~= xor_bytes(a, xor_bytes(b, c)));
}

proof fn lemma_digest_len(seed: Seq<u8>, data: Seq<u8>)
    ensures
        digest(seed, data).len() == seed.len(),
    decreases data.len(),
{
    if seed.len() > 0 && data.len() >= seed.len() {
        lemma_digest_len(seed, data.take(data.len() - seed.len()));
    }
}

proof fn lemma_digest_push(seed: Seq<u8>, data: Seq<u8>, last: Seq<u8>)
    requires
        seed.len() > 0,
        last.len() == seed.len(),
    ensures
        digest(seed, data + last) == xor_bytes(
            digest(seed, data),
            rotate_left(last, shift_amount(seed, data.len() / seed.len())),
        ),
{
    let all = data + last;
    assert(all.take(all.len() - seed.len()) =~= data);
    assert(all.skip(all.len() - seed.len()) =~= last);
}

proof fn lemma_next_position(len: nat, n: nat)
    requires
        n > 0,
        len % n == 0,
    ensures
        (len + n) % n == 0,
        ((len + n) / n) % n == if (len / n) % n + 1 < n {
            (len / n) % n + 1
        } else {
            0
        },
{
    vstd::arithmetic::div_mod::lemma_div_plus_one(len as int, n as int);
    vstd::arithmetic::div_mod::lemma_mod_add_multiples_vanish(len as int, n as int);
    let q = (len / n) as int;
    vstd::arithmetic::div_mod::lemma_fundamental_div_mod(q, n as int);
    assert((n as int) * (q / (n as int)) == (q / (n as int)) * (n as int)) by (nonlinear_arith);
    if q % (n as int) + 1 < n {
        vstd::arithmetic::div_mod::lemma_fundamental_div_mod_converse(
            q + 1,
            n as int,
            q / (n as int),
            q % (n as int) + 1,
        );
    } else {
        assert((q / (n as int) + 1) * (n as int) == (q / (n as int)) * (n as int) + n)
            by (nonlinear_arith);
        vstd::arithmetic::div_mod::lemma_fundamental_div_mod_converse(
            q + 1,
            n as int,
            q / (n as int) + 1,
            0,
        );
    }
}

proof fn lemma_room_for_block(done: nat, len: nat, n: nat)
    requires
        n > 0,
        done % n == 0,
        len % n == 0,
        done < len,
    ensures
        done + n <= len,
{
    vstd::arithmetic::div_mod::lemma_fundamental_div_mod(done as int, n as int);
    vstd::arithmetic::div_mod::lemma_fundamental_div_mod(len as int, n as int);
    let (p, q, m) = ((done / n) as int, (len / n) as int, n as int);
    assert(m * p < m * q && m > 0 ==> p < q) by (nonlinear_arith);
    assert(p + 1 <= q && m > 0 ==> m * p + m <= m * q) by (nonlinear_arith);
}

} // verus!
