//! The host's half of the protocol up to the start of the transfer: key material, the accumulator,
//! and the opening handshake.

use vstd::prelude::*;
use vstd::slice::slice_subrange;

use crate::cipher::KEY_BYTES;
use crate::random::RandomSource;
use crate::serial::encode_u32;
use crate::serial::le_bytes;
use crate::shiftxor::ShiftXor;
use crate::shiftxor::{digest, key_block, zero_bytes};

verus! {

/// Size of the pieces in which the ciphertext is sent, each acknowledged by the device. A multiple
/// of the accumulator's block size.
pub const STREAM_WRITE_BYTES: usize = 1024;

/// Bytes, filled up with zeros to a whole number of accumulator blocks.
pub open spec fn block_aligned(bytes: Seq<u8>) -> Seq<u8> {
    bytes + zero_bytes(((16 - bytes.len() % 16) % 16) as nat)
}

/// Filling up adds less than a block and ends on a block boundary.
pub proof fn law_aligned_length(bytes: Seq<u8>)
    ensures
        block_aligned(bytes).len() % 16 == 0,
        bytes.len() <= block_aligned(bytes).len() < bytes.len() + 16,
{
}

/// Filling up keeps every byte where it is, and adds nothing but zeros.
pub proof fn law_aligned_contents(bytes: Seq<u8>)
    ensures
        block_aligned(bytes).take(bytes.len() as int) == bytes,
        forall|i: int| 0 <= i < bytes.len() ==> block_aligned(bytes)[i] == bytes[i],
        forall|i: int|
            bytes.len() <= i < block_aligned(bytes).len() ==> block_aligned(bytes)[i] == 0,
        block_aligned(bytes).len() % 16 == 0,
        bytes.len() <= block_aligned(bytes).len() < bytes.len() + 16,
{
    assert(block_aligned(bytes).take(bytes.len() as int) =~= bytes);
}

/// What a writer stands for: the key, the seed, the program that the device is expected to run,
/// and everything that the accumulator has absorbed.
pub struct WriterState {
    pub key: Seq<u8>,
    pub seed: Seq<u8>,
    pub program: Seq<u8>,
    pub absorbed: Seq<u8>,
}

impl WriterState {
    /// The state before the transfer: only the device's own program has been absorbed.
    pub open spec fn initial(key: Seq<u8>, seed: Seq<u8>, program: Seq<u8>) -> WriterState {
        WriterState { key, seed, program, absorbed: block_aligned(program) }
    }
}

/// Before the transfer, the accumulator holds the device's whole program and nothing but zeros
/// behind it, up to the next block boundary.
pub proof fn law_initial_state(key: Seq<u8>, seed: Seq<u8>, program: Seq<u8>)
    ensures
        ({
            let state = WriterState::initial(key, seed, program);
            &&& state.key == key
            &&& state.seed == seed
            &&& state.program == program
            &&& state.absorbed.len() % 16 == 0
            &&& program.len() <= state.absorbed.len() < program.len() + 16
            &&& state.absorbed.take(program.len() as int) == program
            &&& forall|i: int| program.len() <= i < state.absorbed.len() ==> state.absorbed[i] == 0
        }),
{
    law_aligned_contents(program);
}

/// The host's secrets, and the accumulator that will mask the key.
pub struct CiphertextWriter {
    key: [u8; KEY_BYTES],
    shifter: ShiftXor<KEY_BYTES>,
    device_program_end: usize,
    non_encrypted_bytelen: usize,
    program: Ghost<Seq<u8>>,
    source: RandomSource,
}

/// The system's random source has failed to give a key or a seed.
#[derive(Clone, Copy, Debug, PartialEq, Eq, Structural)]
pub struct RandomError;

/// `getrandom::fill`, on a copy of the given block. The system's random source decides whether it
/// succeeds and what comes back, and nothing is known of either. After a failure there is no block.
/// The source's record gains the outcome of this very call.
#[verifier::external_body]
fn random_block(source: &mut RandomSource, initial: [u8; KEY_BYTES]) -> (res: Option<
    [u8; KEY_BYTES],
>)
    ensures
        final(source)@ == old(source)@.push(
            match res {
                Some(block) => Some(block@),
                None => None,
            },
        ),
{
    let mut block = initial;
    getrandom::fill(&mut block).ok().map(|_| block)
}

impl View for CiphertextWriter {
    type V = WriterState;

    closed spec fn view(&self) -> WriterState {
        WriterState {
            key: self.key@,
            seed: self.shifter@.seed,
            program: self.program@,
            absorbed: self.shifter@.absorbed,
        }
    }
}

impl CiphertextWriter {
    pub closed spec fn wf(&self) -> bool {
        &&& self.shifter.wf()
        &&& self.shifter@.key == self.key@
        &&& self.shifter@.seed.len() == KEY_BYTES
        &&& self.device_program_end == self.program@.len()
        &&& self.non_encrypted_bytelen == block_aligned(self.program@).len()
    }

    /// What was drawn from the random source for this writer, in order.
    pub closed spec fn draws(&self) -> Seq<Option<Seq<u8>>> {
        self.source@
    }

    /// A writer with a fresh random key and a fresh random seed. There is none where the system has
    /// no randomness to give.
    pub fn new(expected_device_program: &[u8]) -> (res: Result<Self, RandomError>)
        requires
            expected_device_program@.len() + 15 <= usize::MAX,
        ensures
            res matches Ok(writer) ==> {
                &&& writer.wf()
                &&& writer@ == WriterState::initial(
                    writer@.key,
                    writer@.seed,
                    expected_device_program@,
                )
                &&& writer@.key.len() == KEY_BYTES
                &&& writer@.seed.len() == KEY_BYTES
                // The key is the first draw of the random source, and the seed is the second.
                &&& writer.draws() == seq![Some(writer@.key), Some(writer@.seed)]
            },
    {
        let mut source: RandomSource = RandomSource::new();
        match CiphertextWriter::from_source(&mut source, expected_device_program) {
            Ok(writer) => {
                let mut writer: CiphertextWriter = writer;
                writer.source = source;
                assert(writer.draws() =~= seq![Some(writer@.key), Some(writer@.seed)]);
                Ok(writer)
            },
            Err(error) => Err(error),
        }
    }

    /// A writer with a key and a seed from the given source: one draw for the key and another one
    /// for the seed. There is a writer whenever neither draw fails.
    pub(crate) fn from_source(source: &mut RandomSource, expected_device_program: &[u8]) -> (res:
        Result<Self, RandomError>)
        requires
            expected_device_program@.len() + 15 <= usize::MAX,
        ensures
            final(source)@.len() == old(source)@.len() + 2,
            final(source)@.take(old(source)@.len() as int) == old(source)@,
            match res {
                Ok(writer) => {
                    &&& writer.wf()
                    &&& final(source)@[old(source)@.len() as int] == Some(writer@.key)
                    &&& final(source)@[1 + old(source)@.len() as int] == Some(writer@.seed)
                    &&& writer@ == WriterState::initial(
                        writer@.key,
                        writer@.seed,
                        expected_device_program@,
                    )
                    &&& writer@.key.len() == KEY_BYTES
                    &&& writer@.seed.len() == KEY_BYTES
                },
                Err(_) => {
                    ||| final(source)@[old(source)@.len() as int] is None
                    ||| final(source)@[1 + old(source)@.len() as int] is None
                },
            },
    {
        let key: Option<[u8; KEY_BYTES]> = random_block(source, [0u8; KEY_BYTES]);
        let seed: Option<[u8; KEY_BYTES]> = random_block(source, [8u8; KEY_BYTES]);
        assert(source@.take(old(source)@.len() as int) =~= old(source)@);
        CiphertextWriter::from_draws(key, seed, expected_device_program)
    }

    /// A writer from what the random source has given for the key and for the seed. Neither is
    /// ever replaced by a block that was not drawn.
    pub fn from_draws(
        key: Option<[u8; KEY_BYTES]>,
        seed: Option<[u8; KEY_BYTES]>,
        expected_device_program: &[u8],
    ) -> (res: Result<Self, RandomError>)
        requires
            expected_device_program@.len() + 15 <= usize::MAX,
        ensures
            match (key, seed) {
                (Some(key), Some(seed)) => {
                    &&& res matches Ok(writer)
                    &&& writer.wf()
                    &&& writer@ == WriterState::initial(key@, seed@, expected_device_program@)
                    &&& writer@.key == key@
                    &&& writer@.seed == seed@
                    &&& writer@.program == expected_device_program@
                    &&& writer.draws().len() == 0
                },
                _ => res is Err,
            },
    {
        match (key, seed) {
            (Some(key), Some(seed)) => Ok(
                CiphertextWriter::with_material(&key, &seed, expected_device_program),
            ),
            _ => Err(RandomError),
        }
    }

    /// A writer with the given key and seed.
    ///
    /// The device's program is absorbed first, filled up with zeros to a whole number of blocks:
    /// it stays in the device's memory and is covered by the key recovery as it is.
    pub fn with_material(
        key: &[u8; KEY_BYTES],
        seed: &[u8; KEY_BYTES],
        expected_device_program: &[u8],
    ) -> (res: Self)
        requires
            expected_device_program@.len() + 15 <= usize::MAX,
        ensures
            res.wf(),
            res@ == WriterState::initial(key@, seed@, expected_device_program@),
            res@.key == key@,
            res@.seed == seed@,
            res@.program == expected_device_program@,
            res.draws().len() == 0,
            res@.absorbed.len() % 16 == 0,
            expected_device_program@.len() <= res@.absorbed.len() < expected_device_program@.len()
                + 16,
            res@.absorbed.take(expected_device_program@.len() as int) == expected_device_program@,
            forall|i: int|
                expected_device_program@.len() <= i < res@.absorbed.len() ==> res@.absorbed[i] == 0,
    {
        let mut shifter: ShiftXor<KEY_BYTES> = ShiftXor::new(seed, key);
        let end: usize = expected_device_program.len();
        let aligned_end: usize = end - end % KEY_BYTES;
        let mut device_program_offset: usize = end;
        if end % KEY_BYTES != 0 {
            device_program_offset = end + (KEY_BYTES - end % KEY_BYTES);
        }
        shifter.absorb(slice_subrange(expected_device_program, 0, aligned_end));
        if aligned_end < device_program_offset {
            let mut data: Vec<u8> = Vec::new();
            data.extend_from_slice(slice_subrange(expected_device_program, aligned_end, end));
            let ghost tail = data@;
            data.resize(device_program_offset - aligned_end, 0u8);
            assert(tail =~= expected_device_program@.skip(aligned_end as int));
            assert(data@ =~= tail + zero_bytes((device_program_offset - end) as nat)) by {
                assert forall|i: int| 0 <= i < tail.len() implies data@[i] == tail[i] by {
                    assert(data@[i] == data@.subrange(0, tail.len() as int)[i]);
                }
                assert forall|i: int| tail.len() <= i < data@.len() implies data@[i] == 0 by {
                    assert(cloned::<u8>(0u8, data@[i]));
                }
            }
            shifter.absorb(&data);
        }
        proof {
            assert(shifter@.absorbed =~= block_aligned(expected_device_program@));
            law_aligned_contents(expected_device_program@);
        }
        CiphertextWriter {
            key: *key,
            shifter,
            device_program_end: end,
            non_encrypted_bytelen: device_program_offset,
            program: Ghost(expected_device_program@),
            source: RandomSource::new(),
        }
    }

    /// The encryption key.
    pub fn key(&self) -> (res: &[u8; KEY_BYTES])
        ensures
            res@ == self@.key,
    {
        &self.key
    }

    /// The seed of the accumulator.
    pub fn seed(&self) -> (res: &[u8; KEY_BYTES])
        ensures
            res@ == self@.seed,
    {
        self.shifter.seed()
    }

    /// The key, masked with the digest of everything absorbed so far.
    pub fn key_block(&self) -> (res: &[u8; KEY_BYTES])
        requires
            self.wf(),
        ensures
            res@ == key_block(self@.seed, self@.key, self@.absorbed),
            forall|j: int|
                0 <= j < 16 ==> res@[j] == self@.key[j] ^ digest(self@.seed, self@.absorbed)[j],
    {
        self.shifter.key()
    }

    /// Size of the device's program as far as it is covered by the key recovery.
    pub fn non_encrypted_bytelen(&self) -> (res: usize)
        requires
            self.wf(),
        ensures
            res == block_aligned(self@.program).len(),
            res % 16 == 0,
            self@.program.len() <= res < self@.program.len() + 16,
    {
        self.non_encrypted_bytelen
    }

    /// Absorbs data that is being sent.
    pub(crate) fn absorb(&mut self, data: &[u8])
        requires
            old(self).wf(),
            data@.len() % 16 == 0,
        ensures
            final(self).wf(),
            final(self)@ == (WriterState {
                absorbed: old(self)@.absorbed + data@,
                ..old(self)@
            }),
            final(self).draws() == old(self).draws(),
    {
        self.shifter.absorb(data);
    }

    /// First message of the handshake: how many bytes are sent between acknowledgements.
    pub fn stride_message() -> (res: [u8; 4])
        ensures
            res@ == le_bytes(1024),
            res@ == seq![0u8, 4u8, 0u8, 0u8],
    {
        assert(le_bytes(1024) =~= seq![0u8, 4u8, 0u8, 0u8]);
        encode_u32(STREAM_WRITE_BYTES as u32)
    }

    /// Second message of the handshake: the size of the device's program, of which the low 32 bits
    /// are sent.
    pub fn offset_message(&self) -> (res: [u8; 4])
        requires
            self.wf(),
        ensures
            res@ == le_bytes((self@.program.len() % 0x1_0000_0000) as u32),
    {
        encode_u32((self.device_program_end as u64 % 0x1_0000_0000) as u32)
    }
}

} // verus!
