use erasure::cipher::encrypt_at;
use erasure::recovery::{success_lines, KeyCheck, KeyRecovery};
use erasure::shiftxor::ShiftXor;
use erasure::transfer::{check_status, AckMismatch, StartError, Transfer};
use erasure::writer::{CiphertextWriter, RandomError};

const KEY: [u8; 16] = [
    0x2b, 0x7e, 0x15, 0x16, 0x28, 0xae, 0xd2, 0xa6, 0xab, 0xf7, 0x15, 0x88, 0x09, 0xcf, 0x4f, 0x3c,
];
const SEED: [u8; 16] = [3, 14, 15, 92, 65, 35, 89, 79, 32, 38, 46, 26, 43, 38, 32, 79];

fn program(len: usize) -> Vec<u8> {
    (0..len).map(|i| (i * 7 + 1) as u8).collect()
}

fn aligned(program: &[u8]) -> Vec<u8> {
    let mut memory = program.to_vec();
    while memory.len() % 16 != 0 {
        memory.push(0);
    }
    memory
}

/// Sends everything, acknowledging as an honest device does.
fn send_all(mut transfer: Transfer) -> (Vec<Vec<u8>>, KeyRecovery) {
    let mut pieces: Vec<Vec<u8>> = Vec::new();
    let mut received: u32 = 0;
    while let Some(piece) = transfer.next_piece() {
        received += piece.len() as u32;
        pieces.push(piece);
        assert!(transfer.next_piece().is_none());
        assert_eq!(transfer.bytes_written(), received as usize);
        assert_eq!(transfer.acknowledge(received), Ok(()));
    }
    let recovery = match transfer.finish() {
        Ok(recovery) => recovery,
        Err(_) => panic!("not finished"),
    };
    (pieces, recovery)
}

fn begin(plaintext: &[u8], target: u32) -> Result<Transfer, StartError> {
    let writer = CiphertextWriter::with_material(&KEY, &SEED, &program(37));
    Transfer::begin(writer, plaintext.to_vec(), target)
}

/// What a device computes from its memory.
fn recover(seed: &[u8; 16], key_block: &[u8; 16], memory: &[u8]) -> [u8; 16] {
    let mut shifter = ShiftXor::<16>::new(seed, key_block);
    shifter.absorb(memory);
    *shifter.key()
}

#[test]
fn nothing_absorbed_leaves_the_key() {
    let shifter = ShiftXor::<16>::new(&SEED, &KEY);
    assert_eq!(shifter.key(), &KEY);
    assert_eq!(shifter.seed(), &SEED);
}

#[test]
fn blocks_are_rotated_by_the_seed_and_mixed() {
    let mut shifter = ShiftXor::<4>::new(&[1, 6, 0, 255], &[0, 0, 0, 0]);
    shifter.absorb(&[1, 2, 3, 4]);
    assert_eq!(shifter.key(), &[2, 3, 4, 1]);
    shifter.absorb(&[0x10, 0x20, 0x30, 0x40, 0, 0, 0, 0, 0, 0, 0, 0x80]);
    assert_eq!(shifter.key(), &[0x32 ^ 0x80, 0x43, 0x14, 0x21]);
    // The fifth block uses the seed's first byte again.
    shifter.absorb(&[8, 0, 0, 0]);
    assert_eq!(shifter.key(), &[0x32 ^ 0x80, 0x43, 0x14, 0x21 ^ 8]);
}

#[test]
fn absorbing_in_pieces_is_absorbing_at_once() {
    let data = program(160);
    let mut whole = ShiftXor::<16>::new(&SEED, &KEY);
    whole.absorb(&data);
    let mut pieces = ShiftXor::<16>::new(&SEED, &KEY);
    pieces.absorb(&data[..48]);
    pieces.absorb(&[]);
    pieces.absorb(&data[48..]);
    assert_eq!(whole.key(), pieces.key());
    assert_ne!(whole.key(), &KEY);
}

#[test]
fn keystream_is_aes_in_counter_mode() {
    // AES-128 of the all-zero block under this key.
    let first = encrypt_at(&KEY, 0, &[0u8; 16]);
    assert_eq!(
        first,
        vec![
            0x7d, 0xf7, 0x6b, 0x0c, 0x1a, 0xb8, 0x99, 0xb3, 0x3e, 0x42, 0xf0, 0x47, 0xb9, 0x1b,
            0x54, 0x6f
        ]
    );
}

#[test]
fn stream_is_encrypted_piecewise_and_decrypted() {
    let data = program(100);
    let whole = encrypt_at(&KEY, 5, &data);
    let mut pieces = encrypt_at(&KEY, 5, &data[..33]);
    pieces.extend(encrypt_at(&KEY, 38, &data[33..]));
    assert_eq!(whole, pieces);
    assert_ne!(whole, data);
    assert_eq!(encrypt_at(&KEY, 5, &whole), data);
    assert_ne!(encrypt_at(&SEED, 5, &data), whole);
}

#[test]
fn handshake_messages() {
    let writer = CiphertextWriter::with_material(&KEY, &SEED, &program(0x1234));
    assert_eq!(CiphertextWriter::stride_message(), [0, 4, 0, 0]);
    assert_eq!(writer.offset_message(), [0x34, 0x12, 0, 0]);
    assert_eq!(writer.non_encrypted_bytelen(), 0x1240);
    assert_eq!(writer.key(), &KEY);
    assert_eq!(writer.seed(), &SEED);
}

#[test]
fn program_is_absorbed_with_padding() {
    for len in [0usize, 1, 15, 16, 17, 37] {
        let writer = CiphertextWriter::with_material(&KEY, &SEED, &program(len));
        let memory = aligned(&program(len));
        assert_eq!(writer.non_encrypted_bytelen(), memory.len());
        assert_eq!(recover(&SEED, writer.key_block(), &memory), KEY);
    }
}

fn random_writer() -> CiphertextWriter {
    match CiphertextWriter::new(&program(20)) {
        Ok(writer) => writer,
        Err(_) => panic!("no randomness"),
    }
}

#[test]
fn no_writer_without_randomness() {
    let program = program(20);
    assert!(CiphertextWriter::from_draws(None, Some(SEED), &program).err() == Some(RandomError));
    assert!(CiphertextWriter::from_draws(Some(KEY), None, &program).err() == Some(RandomError));
    assert!(CiphertextWriter::from_draws(None, None, &program).err() == Some(RandomError));
    match CiphertextWriter::from_draws(Some(KEY), Some(SEED), &program) {
        Ok(writer) => {
            assert_eq!(writer.key(), &KEY);
            assert_eq!(writer.seed(), &SEED);
        }
        Err(_) => panic!("refused"),
    }
}

#[test]
fn short_last_piece_is_ciphertext() {
    let (pieces, _) = match begin(b"data", 1024 + 32) {
        Ok(transfer) => send_all(transfer),
        Err(_) => panic!("refused"),
    };
    assert_eq!(pieces.len(), 2);
    assert_eq!(pieces[1], encrypt_at(&KEY, 1024, &[0u8; 32]));
    assert_ne!(pieces[1], vec![0u8; 32]);
}

#[test]
fn random_writers_differ() {
    let first = random_writer();
    let second = random_writer();
    assert_ne!(first.key(), second.key());
    assert_ne!(first.seed(), second.seed());
    assert_ne!(first.key(), &[0u8; 16]);
    assert_ne!(first.seed(), &[8u8; 16]);
}

#[test]
fn device_error_codes() {
    assert_eq!(check_status(0), Ok(()));
    assert_eq!(check_status(7), Err(StartError::DeviceError { code: 7 }));
}

#[test]
fn target_has_to_be_whole_blocks() {
    assert!(begin(b"data", 2050).err() == Some(StartError::UnalignedTarget { target: 2050 }));
    assert!(begin(&program(5000), 2050).err() == Some(StartError::UnalignedTarget { target: 2050 }));
}

#[test]
fn plaintext_has_to_fit() {
    assert!(begin(&program(15), 16).is_ok());
    assert!(begin(&program(16), 16).err() == Some(StartError::PlaintextTooLong));
    assert!(begin(b"", 0).err() == Some(StartError::PlaintextTooLong));
    assert!(begin(&program(4096), 4096).err() == Some(StartError::PlaintextTooLong));
}

#[test]
fn honest_device_recovers_key_and_plaintext() {
    for (len, target) in [
        (0usize, 1024u32),
        (5, 16),
        (100, 4096),
        (1023, 1024),
        (1024, 2048),
        (1030, 1040),
        (2500, 4096 + 48),
        (3000, 3072 + 16),
    ] {
        let plaintext = program(len);
        let transfer = match begin(&plaintext, target) {
            Ok(transfer) => transfer,
            Err(_) => panic!("refused"),
        };
        assert_eq!(transfer.target_len(), target as usize);
        let (pieces, recovery) = send_all(transfer);
        let sent = pieces.concat();
        assert_eq!(sent.len(), target as usize);
        assert_eq!(pieces.len(), (target as usize + 1023) / 1024);
        assert!(pieces[..pieces.len() - 1].iter().all(|p| p.len() == 1024));

        let mut memory = aligned(&program(37));
        memory.extend_from_slice(&sent);
        let key = recover(recovery.seed(), recovery.key_block(), &memory);
        assert_eq!(key, KEY);
        assert_eq!(
            recovery.check_key_recovery(&key),
            KeyCheck::Recovered { lightly_checked: 48, erased: target as usize }
        );

        let decrypted = encrypt_at(&key, 0, &sent);
        assert_eq!(decrypted[..len], plaintext[..]);
        assert_eq!(decrypted[len], 0x80);
        assert!(decrypted[len + 1..].iter().all(|b| *b == 0));
    }
}

#[test]
fn forgetful_device_is_caught() {
    let (pieces, recovery) = match begin(b"new state", 2048) {
        Ok(transfer) => send_all(transfer),
        Err(_) => panic!("refused"),
    };
    let mut memory = aligned(&program(37));
    memory.extend_from_slice(&pieces.concat());
    for at in [0usize, 40, 47, 48, 1000, 2095] {
        let mut wrong = memory.clone();
        wrong[at] ^= 1;
        let key = recover(recovery.seed(), recovery.key_block(), &wrong);
        assert_eq!(recovery.check_key_recovery(&key), KeyCheck::Failed);
    }
    assert_eq!(recovery.check_key_recovery(recovery.key_block()), KeyCheck::Failed);
}

#[test]
fn wrong_acknowledgement_is_refused() {
    let mut transfer = match begin(b"data", 2048) {
        Ok(transfer) => transfer,
        Err(_) => panic!("refused"),
    };
    assert!(transfer.next_piece().is_some());
    assert_eq!(
        transfer.acknowledge(1023),
        Err(AckMismatch { device: 1023, host: 1024 })
    );
    assert!(transfer.next_piece().is_none());
    assert_eq!(transfer.acknowledge(1024), Ok(()));
    let transfer = match transfer.finish() {
        Ok(_) => panic!("half sent"),
        Err(transfer) => transfer,
    };
    assert_eq!(transfer.bytes_written(), 1024);
}

#[test]
fn report_lines() {
    assert_eq!(
        success_lines(1234, 48, 4096),
        [
            "Key recovery successful in 1234ms.".to_string(),
            "  48 bytes of memory given a lightweight check.".to_string(),
            "  4096 bytes of memory proven erased.".to_string(),
        ]
    );
    let (_, recovery) = match begin(b"data", 16) {
        Ok(transfer) => send_all(transfer),
        Err(_) => panic!("refused"),
    };
    assert_eq!(
        recovery.failure_lines(&[0xab; 16]),
        [
            "Key recovery failed!".to_string(),
            "Host:   2b7e151628aed2a6abf7158809cf4f3c".to_string(),
            "Target: abababababababababababababababab".to_string(),
        ]
    );
}
