use erasure::progress::Progress;
use erasure::serial::{decode_u32, device_message, encode_u32, serial_failure, split_lines};
use erasure::serial::SerialFailure;
use erasure::text::{address_text, hex_text, push_decimal, push_hexadecimal};

#[test]
fn progress_bar() {
    let progress = Progress::new(200, 10);
    assert_eq!(progress.start(), "[          ]  0 / 200 (0%)");
    assert_eq!(progress.update(0), "\r[          ]  0 / 200 (0%)");
    assert_eq!(progress.update(59), "\r[==        ]  59 / 200 (29%)");
    assert_eq!(progress.update(199), "\r[========= ]  199 / 200 (99%)");
    assert_eq!(progress.update(200), "\r[==========]  200 / 200 (100%)");
    assert_eq!(progress.update(400), "\r[==========]  400 / 200 (200%)");
    assert_eq!(progress.done(), "\n");
    assert_eq!(Progress::new(3, 0).update(1), "\r[]  1 / 3 (33%)");
}

#[test]
fn words() {
    assert_eq!(encode_u32(0x12345678), [0x78, 0x56, 0x34, 0x12]);
    assert_eq!(decode_u32(&[0x78, 0x56, 0x34, 0x12]), 0x12345678);
    for word in [0u32, 1, 255, 256, 1024, 0x80000000, u32::MAX] {
        assert_eq!(encode_u32(word), word.to_le_bytes());
        assert_eq!(decode_u32(&encode_u32(word)), word);
    }
}

#[test]
fn decimal_numbers() {
    for value in [0u128, 7, 10, 99, 100, 65535, u128::MAX] {
        let mut text = String::from("x");
        push_decimal(&mut text, value);
        assert_eq!(text, format!("x{}", value));
    }
}

#[test]
fn hexadecimal_numbers() {
    for value in [0u64, 9, 10, 15, 16, 0xdeadbeef, u64::MAX] {
        let mut text = String::new();
        push_hexadecimal(&mut text, value);
        assert_eq!(text, format!("{:x}", value));
    }
}

#[test]
fn addresses() {
    for value in [0u64, 1, 0xf, 0x10, 0xfffff, 0x100000, 0x60000, 0x60060000, u64::MAX] {
        assert_eq!(address_text(value), format!("{:#08x}", value));
    }
}

#[test]
fn hex_strings() {
    assert_eq!(hex_text(&[]), "");
    assert_eq!(hex_text(&[0x00, 0x9f, 0xa0, 0xff]), "009fa0ff");
}

#[test]
fn lines_are_split_as_std_does() {
    for text in [
        "", "\n", "\r\n", "\r", "a", "a\n", "a\r\n", "a\r", "a\nb", "a\r\nb\n", "\n\na", "a\rb\n",
        "a\r\r\nb", "größe\nαβγ\r\nend",
    ] {
        let expected: Vec<String> = text.lines().map(|line| line.to_string()).collect();
        assert_eq!(split_lines(&text.to_string()), expected);
    }
}

#[test]
fn device_messages() {
    let message = match device_message("panic!\r\nat main.rs\n".as_bytes().to_vec()) {
        Some(message) => message,
        None => panic!("no message"),
    };
    assert_eq!(message.text, "panic!\r\nat main.rs\n");
    assert_eq!(message.lines, vec!["panic!".to_string(), "at main.rs".to_string()]);
    let nothing = match device_message(Vec::new()) {
        Some(message) => message,
        None => panic!("no message"),
    };
    assert_eq!(nothing.text, "");
    assert!(nothing.lines.is_empty());
    assert!(device_message(vec![b'a', 0xff]).is_none());
}

#[test]
fn failures_of_the_line() {
    match serial_failure(true, "reading key", "timed out") {
        SerialFailure::Stop { notice } => {
            assert_eq!(notice, "\nTimeout reading key, try rebooting?")
        }
        SerialFailure::Abort { .. } => panic!("aborted"),
    }
    match serial_failure(false, "writing seed", "broken pipe") {
        SerialFailure::Abort { message } => assert_eq!(message, "Error writing seed: broken pipe"),
        SerialFailure::Stop { .. } => panic!("stopped"),
    }
}
