//! The transfer: the plaintext is padded, encrypted and sent piece by piece until the device's
//! memory is full.

use vstd::prelude::*;

use crate::cipher::encrypt_at;
use crate::cipher::{keystream_byte, keystream_xor, law_decryption, law_every_byte_encrypted};
use crate::recovery::KeyRecovery;
use crate::recovery::RecoveryState;
use crate::shiftxor::key_block;
use crate::shiftxor::{law_device_recovers_key, law_wrong_block_is_detected};
use crate::writer::{block_aligned, law_aligned_length, WriterState};
use crate::writer::{CiphertextWriter, STREAM_WRITE_BYTES};

verus! {

/// The byte that marks the end of the plaintext.
pub const PAD_MARKER: u8 = 0x80;

/// Width of the bar that shows how far the transfer is.
pub const PROGRESS_WIDTH: usize = 50;

/// The plaintext, the end marker, and zeros up to the given length.
pub open spec fn padded(plaintext: Seq<u8>, len: nat) -> Seq<u8> {
    Seq::new(
        len,
        |i: int|
            if i < plaintext.len() {
                plaintext[i]
            } else if i == plaintext.len() {
                PAD_MARKER
            } else {
                0
            },
    )
}

/// All bytes of a transfer: the plaintext, padded to the length that the device has asked for, and
/// encrypted from the first byte to the last.
pub open spec fn transfer_bytes(key: Seq<u8>, plaintext: Seq<u8>, target: nat) -> Seq<u8> {
    keystream_xor(key, 0, padded(plaintext, target))
}

/// What a transfer stands for.
pub struct TransferState {
    pub writer: WriterState,
    pub plaintext: Seq<u8>,
    /// Number of bytes that the device has asked for.
    pub target: nat,
    /// Number of bytes handed out so far.
    pub written: nat,
    /// Whether the last piece has not been acknowledged yet.
    pub awaiting_ack: bool,
}

impl TransferState {
    /// All bytes that this transfer sends.
    pub open spec fn stream(self) -> Seq<u8> {
        transfer_bytes(self.writer.key, self.plaintext, self.target)
    }

    /// Size of the next piece: a full one, or what remains.
    pub open spec fn next_len(self) -> nat {
        if self.target - self.written < 1024 {
            (self.target - self.written) as nat
        } else {
            1024
        }
    }

    /// The next piece.
    pub open spec fn next_piece(self) -> Seq<u8> {
        self.stream().subrange(self.written as int, (self.written + self.next_len()) as int)
    }

    /// The state after the next piece has been handed out.
    pub open spec fn after_piece(self) -> TransferState {
        TransferState {
            writer: WriterState {
                absorbed: self.writer.absorbed + self.next_piece(),
                ..self.writer
            },
            written: self.written + self.next_len(),
            awaiting_ack: true,
            ..self
        }
    }

    /// The accumulator has absorbed the device's program and then exactly what has been sent.
    pub open spec fn on_track(self) -> bool {
        self.writer.absorbed == block_aligned(self.writer.program) + self.stream().take(
            self.written as int,
        )
    }

    /// The state after the next `count` pieces have been handed out and acknowledged.
    pub open spec fn after_pieces(self, count: nat) -> TransferState
        decreases count,
    {
        if count == 0 {
            self
        } else {
            TransferState {
                awaiting_ack: false,
                ..self.after_pieces((count - 1) as nat).after_piece()
            }
        }
    }

    /// The next `count` pieces, one after the other.
    pub open spec fn pieces(self, count: nat) -> Seq<u8>
        decreases count,
    {
        if count == 0 {
            Seq::empty()
        } else {
            self.pieces((count - 1) as nat) + self.after_pieces((count - 1) as nat).next_piece()
        }
    }

    /// Everything has been sent and acknowledged.
    pub open spec fn complete(self) -> bool {
        self.written == self.target && !self.awaiting_ack
    }
}

/// Why a transfer cannot begin.
#[derive(Clone, Copy, Debug, PartialEq, Eq, Structural)]
pub enum StartError {
    /// The device has answered the handshake with an error code.
    DeviceError { code: u32 },
    /// The device has asked for a length that is no whole number of blocks.
    UnalignedTarget { target: u32 },
    /// The plaintext and its end marker do not fit into the length that the device has asked for.
    PlaintextTooLong,
}

/// The device has acknowledged another number of bytes than the host has sent.
#[derive(Clone, Copy, Debug, PartialEq, Eq, Structural)]
pub struct AckMismatch {
    pub device: u32,
    pub host: usize,
}

/// What the device's error code means: zero is the only good one.
pub fn check_status(code: u32) -> (res: Result<(), StartError>)
    ensures
        res == if code == 0 {
            Ok::<(), StartError>(())
        } else {
            Err::<(), StartError>(StartError::DeviceError { code })
        },
{
    if code == 0 {
        Ok(())
    } else {
        Err(StartError::DeviceError { code })
    }
}

/// A transfer under way.
pub struct Transfer {
    writer: CiphertextWriter,
    plaintext: Vec<u8>,
    target: usize,
    bytes_written: usize,
    awaiting_ack: bool,
}

impl View for Transfer {
    type V = TransferState;

    closed spec fn view(&self) -> TransferState {
        TransferState {
            writer: self.writer@,
            plaintext: self.plaintext@,
            target: self.target as nat,
            written: self.bytes_written as nat,
            awaiting_ack: self.awaiting_ack,
        }
    }
}

impl Transfer {
    pub closed spec fn wf(&self) -> bool {
        &&& self.writer.wf()
        &&& self.target <= u32::MAX
        &&& self.target % 16 == 0
        &&& self.plaintext@.len() < self.target
        &&& self.bytes_written <= self.target
        &&& self.bytes_written % 1024 == 0 || self.bytes_written == self.target
    }

    /// Begins a transfer of the length that the device has asked for.
    ///
    /// The length has to be a whole number of blocks, and the plaintext is expected to be much
    /// shorter.
    pub fn begin(writer: CiphertextWriter, plaintext: Vec<u8>, target_bytelen: u32) -> (res: Result<
        Transfer,
        StartError,
    >)
        requires
            writer.wf(),
        ensures
            match res {
                Ok(transfer) => {
                    &&& target_bytelen % 16 == 0
                    &&& plaintext@.len() + 1 <= target_bytelen
                    &&& transfer.wf()
                    &&& transfer@ == (TransferState {
                        writer: writer@,
                        plaintext: plaintext@,
                        target: target_bytelen as nat,
                        written: 0,
                        awaiting_ack: false,
                    })
                },
                Err(error) => if target_bytelen % 16 != 0 {
                    error == (StartError::UnalignedTarget { target: target_bytelen })
                } else {
                    &&& plaintext@.len() + 1 > target_bytelen
                    &&& error == StartError::PlaintextTooLong
                },
            },
    {
        let target: usize = target_bytelen as usize;
        if target % 16 != 0 {
            return Err(StartError::UnalignedTarget { target: target_bytelen });
        }
        if plaintext.len() >= target {
            return Err(StartError::PlaintextTooLong);
        }
        Ok(Transfer { writer, plaintext, target, bytes_written: 0, awaiting_ack: false })
    }

    /// Number of bytes that the device has asked for.
    pub fn target_len(&self) -> (res: usize)
        ensures
            res == self@.target,
    {
        self.target
    }

    /// Number of bytes handed out so far.
    pub fn bytes_written(&self) -> (res: usize)
        ensures
            res == self@.written,
    {
        self.bytes_written
    }

    /// The plaintext of the next piece, padded.
    fn plain_piece(&self, len: usize) -> (res: Vec<u8>)
        requires
            self.bytes_written + len <= self.target,
        ensures
            res@ == padded(self.plaintext@, self.target as nat).subrange(
                self.bytes_written as int,
                self.bytes_written + len,
            ),
    {
        let mut res: Vec<u8> = Vec::new();
        let mut i: usize = 0;
        while i < len
            invariant
                i <= len,
                self.bytes_written + len <= self.target,
                res@ =~= padded(self.plaintext@, self.target as nat).subrange(
                    self.bytes_written as int,
                    self.bytes_written + i,
                ),
            decreases len - i,
        {
            let at: usize = self.bytes_written + i;
            if at < self.plaintext.len() {
                res.push(self.plaintext[at]);
            } else if at == self.plaintext.len() {
                res.push(PAD_MARKER);
            } else {
                res.push(0u8);
            }
            i += 1;
        }
        res
    }

    /// The next piece to send, which the accumulator absorbs. There is none while the last one has
    /// not been acknowledged, nor after the end.
    #[verifier::spinoff_prover]
    pub fn next_piece(&mut self) -> (res: Option<Vec<u8>>)
        requires
            old(self).wf(),
        ensures
            final(self).wf(),
            match res {
                Some(piece) => {
                    &&& !old(self)@.awaiting_ack
                    &&& old(self)@.written < old(self)@.target
                    &&& piece@ == old(self)@.next_piece()
                    &&& final(self)@ == old(self)@.after_piece()
                    // The piece is what remains, but no more than 1024 bytes.
                    &&& piece@.len() == if old(self)@.target - old(self)@.written < 1024 {
                        old(self)@.target - old(self)@.written
                    } else {
                        1024
                    }
                    // Each of its bytes is a byte of the plaintext, the end marker or a zero,
                    // encrypted.
                    &&& forall|i: int|
                        0 <= i < piece@.len() ==> #[trigger] piece@[i] == (if old(self)@.written + i
                            < old(self)@.plaintext.len() {
                            old(self)@.plaintext[old(self)@.written + i]
                        } else if old(self)@.written + i == old(self)@.plaintext.len() {
                            0x80u8
                        } else {
                            0u8
                        }) ^ keystream_byte(
                            old(self)@.writer.key,
                            Seq::new(16, |j: int| 0u8),
                            (old(self)@.written + i) as nat,
                        )
                    // It is absorbed and counted, and nothing else changes.
                    &&& final(self)@.writer.absorbed == old(self)@.writer.absorbed + piece@
                    &&& final(self)@.written == old(self)@.written + piece@.len()
                    &&& final(self)@.awaiting_ack
                    &&& final(self)@.writer.key == old(self)@.writer.key
                    &&& final(self)@.writer.seed == old(self)@.writer.seed
                    &&& final(self)@.writer.program == old(self)@.writer.program
                    &&& final(self)@.plaintext == old(self)@.plaintext
                    &&& final(self)@.target == old(self)@.target
                },
                None => {
                    &&& old(self)@.awaiting_ack || old(self)@.written == old(self)@.target
                    &&& final(self)@ == old(self)@
                },
            },
    {
        if self.awaiting_ack || self.bytes_written == self.target {
            return None;
        }
        let start: usize = self.bytes_written;
        let remaining: usize = self.target - start;
        let len: usize = if remaining < STREAM_WRITE_BYTES {
            remaining
        } else {
            STREAM_WRITE_BYTES
        };
        let plain: Vec<u8> = self.plain_piece(len);
        let piece: Vec<u8> = encrypt_at(self.writer.key(), start as u64, &plain);
        assert(piece@ =~= self@.next_piece());
        let ghost before = self@;
        assert(before.writer == self.writer@);
        self.writer.absorb(&piece);
        self.bytes_written = start + len;
        self.awaiting_ack = true;
        Some(piece)
    }

    /// Takes the device's acknowledgement, which has to be the number of bytes sent so far.
    pub fn acknowledge(&mut self, reply: u32) -> (res: Result<(), AckMismatch>)
        requires
            old(self).wf(),
        ensures
            final(self).wf(),
            match res {
                Ok(_) => {
                    &&& reply == old(self)@.written
                    &&& final(self)@ == (TransferState { awaiting_ack: false, ..old(self)@ })
                },
                Err(mismatch) => {
                    &&& reply != old(self)@.written
                    &&& mismatch.device == reply
                    &&& mismatch.host == old(self)@.written
                    &&& final(self)@ == old(self)@
                },
            },
    {
        if reply as usize != self.bytes_written {
            return Err(AckMismatch { device: reply, host: self.bytes_written });
        }
        self.awaiting_ack = false;
        Ok(())
    }

    /// Goes on to the key recovery, once everything has been sent and acknowledged.
    pub fn finish(self) -> (res: Result<KeyRecovery, Transfer>)
        requires
            self.wf(),
        ensures
            match res {
                Ok(recovery) => {
                    &&& self@.complete()
                    &&& self@.written == self@.target
                    &&& !self@.awaiting_ack
                    &&& recovery.wf()
                    &&& recovery@ == (RecoveryState {
                        writer: self@.writer,
                        erased: self@.target,
                    })
                },
                Err(transfer) => {
                    &&& !self@.complete()
                    &&& self@.written != self@.target || self@.awaiting_ack
                    &&& transfer.wf()
                    &&& transfer@ == self@
                },
            },
    {
        if self.bytes_written == self.target && !self.awaiting_ack {
            Ok(KeyRecovery::new(self.writer, self.bytes_written))
        } else {
            Err(self)
        }
    }
}

/// Every byte of a transfer, from the first to the last, is encrypted: the bytes of the plaintext
/// in order, one end marker, and zeros for all of the rest.
pub proof fn law_sent_bytes(key: Seq<u8>, plaintext: Seq<u8>, target: nat)
    requires
        plaintext.len() < target,
    ensures
        transfer_bytes(key, plaintext, target).len() == target,
        forall|i: int|
            0 <= i < plaintext.len() ==> #[trigger] transfer_bytes(key, plaintext, target)[i]
                == plaintext[i] ^ keystream_byte(key, Seq::new(16, |j: int| 0u8), i as nat),
        transfer_bytes(key, plaintext, target)[plaintext.len() as int] == 0x80u8 ^ keystream_byte(
            key,
            Seq::new(16, |j: int| 0u8),
            plaintext.len(),
        ),
        forall|i: int|
            plaintext.len() < i < target ==> #[trigger] transfer_bytes(key, plaintext, target)[i]
                == keystream_byte(key, Seq::new(16, |j: int| 0u8), i as nat),
        forall|i: int|
            0 <= i < target ==> #[trigger] transfer_bytes(key, plaintext, target)[i] == padded(
                plaintext,
                target,
            )[i] ^ keystream_byte(key, Seq::new(16, |j: int| 0u8), i as nat),
{
    let stream = transfer_bytes(key, plaintext, target);
    law_every_byte_encrypted(key, 0, padded(plaintext, target));
    assert forall|i: int| plaintext.len() < i < target implies #[trigger] stream[i]
        == keystream_byte(key, Seq::new(16, |j: int| 0u8), i as nat) by {
        let k = keystream_byte(key, Seq::new(16, |j: int| 0u8), i as nat);
        assert(0u8 ^ k == k) by (bit_vector);
    }
}

/// A piece is the part of the stream that follows what has been sent, and handing it out changes
/// only what has been absorbed, the count and the wait for the device.
pub proof fn law_piece_continues_stream(state: TransferState)
    requires
        state.written <= state.target,
    ensures
        state.next_piece().len() <= 1024,
        state.next_piece().len() == 1024 || state.written + state.next_piece().len()
            == state.target,
        forall|i: int|
            0 <= i < state.next_piece().len() ==> #[trigger] state.next_piece()[i]
                == transfer_bytes(state.writer.key, state.plaintext, state.target)[state.written
                + i],
        state.after_piece().writer.absorbed == state.writer.absorbed + state.next_piece(),
        state.after_piece().written == state.written + state.next_piece().len(),
        state.after_piece().awaiting_ack,
        state.after_piece().writer.key == state.writer.key,
        state.after_piece().writer.seed == state.writer.seed,
        state.after_piece().writer.program == state.writer.program,
        state.after_piece().plaintext == state.plaintext,
        state.after_piece().target == state.target,
{
    law_stream_fills_target(state.writer.key, state.plaintext, state.target);
}

/// A transfer sends exactly as many bytes as the device has asked for.
pub proof fn law_stream_fills_target(key: Seq<u8>, plaintext: Seq<u8>, target: nat)
    ensures
        transfer_bytes(key, plaintext, target).len() == target,
{
}

/// Every piece but the last is a full one, none is empty, and all are whole numbers of blocks.
pub proof fn law_piece_sizes(state: TransferState)
    requires
        state.target % 16 == 0,
        state.written < state.target,
        state.written % 1024 == 0,
    ensures
        state.next_piece().len() == state.next_len(),
        0 < state.next_len() <= 1024,
        state.next_len() % 16 == 0,
        state.next_len() == 1024 || state.written + state.next_len() == state.target,
{
    law_stream_fills_target(state.writer.key, state.plaintext, state.target);
}

/// The accumulator stays in step with what is sent: it holds the device's program and then the
/// bytes handed out so far, from the first piece to the last.
#[verifier::spinoff_prover]
pub proof fn law_accumulator_in_step(state: TransferState)
    requires
        state.written <= state.target,
    ensures
        state.written == 0 && state.writer == WriterState::initial(
            state.writer.key,
            state.writer.seed,
            state.writer.program,
        ) ==> state.on_track(),
        state.on_track() ==> state.after_piece().on_track(),
{
    let program = block_aligned(state.writer.program);
    let stream = state.stream();
    law_stream_fills_target(state.writer.key, state.plaintext, state.target);
    assert(program + stream.take(0) =~= program);
    let end = (state.written + state.next_len()) as int;
    assert(program + stream.take(state.written as int) + state.next_piece() =~= program
        + stream.take(end));
}

/// The pieces of a transfer, one after the other, are its bytes; when the last one has been
/// acknowledged the transfer is complete, and not before.
#[verifier::spinoff_prover]
pub proof fn law_pieces_make_up_stream(state: TransferState, count: nat)
    requires
        state.written == 0,
        !state.awaiting_ack,
        state.on_track(),
        count <= (state.target + 1023) / 1024,
    ensures
        ({
            let after = state.after_pieces(count);
            let sent = if 1024 * count < state.target {
                1024 * count
            } else {
                state.target
            };
            &&& after.written == sent
            &&& after.stream() == state.stream()
            &&& after.target == state.target
            &&& after.writer.program == state.writer.program
            &&& after.on_track()
            &&& state.pieces(count) == state.stream().take(sent as int)
            &&& after.complete() <==> count == (state.target + 1023) / 1024
        }),
    decreases count,
{
    let stream = state.stream();
    law_stream_fills_target(state.writer.key, state.plaintext, state.target);
    if count == 0 {
        assert(state.pieces(0) =~= stream.take(0));
    } else {
        let previous = (count - 1) as nat;
        law_pieces_make_up_stream(state, previous);
        let before = state.after_pieces(previous);
        law_accumulator_in_step(before);
        let after = state.after_pieces(count);
        assert(state.pieces(count) =~= stream.take(after.written as int));
    }
}

/// A device whose memory holds its program and everything that was sent to it recovers the key
/// from the two blocks that it gets at the end.
pub proof fn law_full_memory_recovers_key(state: TransferState)
    requires
        state.complete(),
        state.on_track(),
        state.writer.key.len() == state.writer.seed.len(),
    ensures
        ({
            let writer = state.writer;
            let memory = block_aligned(writer.program) + state.stream();
            let masked = key_block(writer.seed, writer.key, writer.absorbed);
            key_block(writer.seed, masked, memory) == writer.key
        }),
{
    law_stream_fills_target(state.writer.key, state.plaintext, state.target);
    assert(state.stream().take(state.target as int) =~= state.stream());
    law_device_recovers_key(state.writer.seed, state.writer.key, state.writer.absorbed);
}

/// A device whose memory is wrong within one block, and right everywhere else, does not recover
/// the key.
#[verifier::spinoff_prover]
pub proof fn law_lost_block_is_detected(state: TransferState, memory: Seq<u8>, index: nat)
    requires
        state.complete(),
        state.on_track(),
        state.target % 16 == 0,
        state.writer.key.len() == 16,
        state.writer.seed.len() == 16,
        memory.len() == state.writer.absorbed.len(),
        memory != state.writer.absorbed,
        forall|i: int|
            0 <= i < memory.len() && memory[i] != state.writer.absorbed[i] ==> index * 16 <= i < (
            index + 1) * 16,
    ensures
        ({
            let writer = state.writer;
            let masked = key_block(writer.seed, writer.key, writer.absorbed);
            key_block(writer.seed, masked, memory) != writer.key
        }),
{
    let (seed, absorbed) = (state.writer.seed, state.writer.absorbed);
    assert(absorbed.len() % 16 == 0) by {
        law_stream_fills_target(state.writer.key, state.plaintext, state.target);
        law_aligned_length(state.writer.program);
    }
    assert forall|i: int| 0 <= i < absorbed.len() && memory[i] != absorbed[i] implies index
        * seed.len() <= i < (index + 1) * seed.len() by {
        assert(index * 16 <= i < (index + 1) * 16);
    }
    law_wrong_block_is_detected(seed, state.writer.key, absorbed, memory, index);
}

/// With the key, the device can decrypt everything that it was sent, and gets the padded plaintext.
pub proof fn law_device_decrypts(key: Seq<u8>, plaintext: Seq<u8>, target: nat)
    requires
        plaintext.len() < target,
    ensures
        keystream_xor(key, 0, transfer_bytes(key, plaintext, target)) == padded(plaintext, target),
        padded(plaintext, target).take(plaintext.len() as int) == plaintext,
        padded(plaintext, target)[plaintext.len() as int] == PAD_MARKER,
{
    law_decryption(key, 0, padded(plaintext, target));
    assert(padded(plaintext, target).take(plaintext.len() as int) =~= plaintext);
}

/// The padding shows where the plaintext ends: no two plaintexts look alike once padded.
pub proof fn law_padding_is_unambiguous(first: Seq<u8>, second: Seq<u8>, len: nat)
    requires
        first.len() < len,
        second.len() < len,
        padded(first, len) == padded(second, len),
    ensures
        first == second,
{
    let (p, q) = (padded(first, len), padded(second, len));
    let (m, n) = (first.len() as int, second.len() as int);
    assert(p[m] == PAD_MARKER && q[n] == PAD_MARKER);
    assert(p[m] == q[m] && p[n] == q[n]);
    assert(m == n) by {
        if m < n {
            assert(p[n] == 0);
        } else if n < m {
            assert(q[m] == 0);
        }
    }
    assert forall|i: int| 0 <= i < m implies first[i] == second[i] by {
        assert(p[i] == first[i] && q[i] == second[i]);
    }
    assert(first =~= second);
}

} // verus!
