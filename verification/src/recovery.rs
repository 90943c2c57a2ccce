//! The key recovery: the device is sent the masked key and has to answer with the key itself.

use vstd::prelude::*;

use crate::cipher::KEY_BYTES;
use crate::shiftxor::{digest, key_block};
use crate::text::{decimal, hex_string};
use crate::text::{hex_text, push_decimal};
use crate::writer::CiphertextWriter;
use crate::writer::{block_aligned, WriterState};

verus! {

/// What a key recovery stands for.
pub struct RecoveryState {
    pub writer: WriterState,
    /// Number of bytes that have been written over.
    pub erased: nat,
}

/// The outcome of a key recovery.
#[derive(Clone, Copy, Debug, PartialEq, Eq, Structural)]
pub enum KeyCheck {
    /// The device has recovered the key.
    Recovered {
        /// Bytes that were checked but not overwritten.
        lightly_checked: usize,
        /// Bytes that are proven erased.
        erased: usize,
    },
    /// The device has answered with something else.
    Failed,
}

/// A key recovery under way.
pub struct KeyRecovery {
    writer: CiphertextWriter,
    erased: usize,
}

impl View for KeyRecovery {
    type V = RecoveryState;

    closed spec fn view(&self) -> RecoveryState {
        RecoveryState { writer: self.writer@, erased: self.erased as nat }
    }
}

impl KeyRecovery {
    pub closed spec fn wf(&self) -> bool {
        self.writer.wf()
    }

    pub(crate) fn new(writer: CiphertextWriter, erased: usize) -> (res: Self)
        requires
            writer.wf(),
        ensures
            res.wf(),
            res@ == (RecoveryState { writer: writer@, erased: erased as nat }),
    {
        KeyRecovery { writer, erased }
    }

    /// First block to send: the seed.
    pub fn seed(&self) -> (res: &[u8; KEY_BYTES])
        ensures
            res@ == self@.writer.seed,
    {
        self.writer.seed()
    }

    /// Second block to send: the key, masked with the digest of everything that the device's
    /// memory should hold.
    pub fn key_block(&self) -> (res: &[u8; KEY_BYTES])
        requires
            self.wf(),
        ensures
            res@ == key_block(
                self@.writer.seed,
                self@.writer.key,
                self@.writer.absorbed,
            ),
            res@.len() == 16,
            forall|j: int|
                0 <= j < 16 ==> #[trigger] res@[j] == self@.writer.key[j] ^ digest(
                    self@.writer.seed,
                    self@.writer.absorbed,
                )[j],
    {
        self.writer.key_block()
    }

    /// Compares the device's answer with the key.
    pub fn check_key_recovery(&self, reply: &[u8; KEY_BYTES]) -> (res: KeyCheck)
        requires
            self.wf(),
        ensures
            match res {
                KeyCheck::Recovered { lightly_checked, erased } => {
                    &&& reply@ == self@.writer.key
                    &&& lightly_checked == block_aligned(self@.writer.program).len()
                    &&& lightly_checked % 16 == 0
                    &&& self@.writer.program.len() <= lightly_checked < self@.writer.program.len()
                        + 16
                    &&& erased == self@.erased
                },
                KeyCheck::Failed => reply@ != self@.writer.key,
            },
    {
        let key: &[u8; KEY_BYTES] = self.writer.key();
        let mut i: usize = 0;
        while i < KEY_BYTES
            invariant
                i <= KEY_BYTES,
                key@ == self@.writer.key,
                forall|j: int| 0 <= j < i ==> reply@[j] == key@[j],
            decreases KEY_BYTES - i,
        {
            if reply[i] != key[i] {
                return KeyCheck::Failed;
            }
            i += 1;
        }
        assert(reply@ =~= key@);
        KeyCheck::Recovered {
            lightly_checked: self.writer.non_encrypted_bytelen(),
            erased: self.erased,
        }
    }

    /// The lines to show when the device has answered with something else than the key.
    pub fn failure_lines(&self, reply: &[u8; KEY_BYTES]) -> (res: [String; 3])
        ensures
            res@[0]@ == "Key recovery failed!"@,
            res@[1]@ == "Host:   "@ + hex_string(self@.writer.key),
            res@[2]@ == "Target: "@ + hex_string(reply@),
    {
        let host: String = hex_text(self.writer.key());
        let target: String = hex_text(reply);
        let mut host_line: String = "Host:   ".to_owned();
        host_line.append(host.as_str());
        let mut target_line: String = "Target: ".to_owned();
        target_line.append(target.as_str());
        ["Key recovery failed!".to_owned(), host_line, target_line]
    }
}

/// The lines to show when the device has recovered the key: how long it took, and what that says
/// of its memory.
pub fn success_lines(elapsed_ms: u128, lightly_checked: usize, erased: usize) -> (res: [String; 3])
    ensures
        res@[0]@ == "Key recovery successful in "@ + decimal(elapsed_ms as nat) + "ms."@,
        res@[1]@ == "  "@ + decimal(lightly_checked as nat)
            + " bytes of memory given a lightweight check."@,
        res@[2]@ == "  "@ + decimal(erased as nat) + " bytes of memory proven erased."@,
{
    let mut timing: String = "Key recovery successful in ".to_owned();
    push_decimal(&mut timing, elapsed_ms);
    timing.append("ms.");
    let mut checked_line: String = "  ".to_owned();
    push_decimal(&mut checked_line, lightly_checked as u128);
    checked_line.append(" bytes of memory given a lightweight check.");
    let mut erased_line: String = "  ".to_owned();
    push_decimal(&mut erased_line, erased as u128);
    erased_line.append(" bytes of memory proven erased.");
    [timing, checked_line, erased_line]
}

} // verus!
