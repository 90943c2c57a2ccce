//! What travels over the serial line, apart from the data itself: 32-bit words, text messages from
//! the device, and what to do when the line fails.

use vstd::prelude::*;
use vstd::utf8::{decode_utf8, valid_utf8};

verus! {

/// The four bytes of a word, least significant first.
pub open spec fn le_bytes(word: u32) -> Seq<u8> {
    seq![
        (word % 0x100) as u8,
        (word / 0x100 % 0x100) as u8,
        (word / 0x10000 % 0x100) as u8,
        (word / 0x1000000) as u8,
    ]
}

/// A word as it is sent.
pub fn encode_u32(word: u32) -> (res: [u8; 4])
    ensures
        res@ == le_bytes(word),
{
    let res: [u8; 4] = [
        (word % 0x100) as u8,
        (word / 0x100 % 0x100) as u8,
        (word / 0x10000 % 0x100) as u8,
        (word / 0x1000000) as u8,
    ];
    assert(res@ =~= le_bytes(word));
    res
}

/// The word that four received bytes stand for.
pub fn decode_u32(bytes: &[u8; 4]) -> (res: u32)
    ensures
        res == bytes@[0] + 0x100 * bytes@[1] + 0x10000 * bytes@[2] + 0x1000000 * bytes@[3],
{
    bytes[0] as u32 + 0x100 * (bytes[1] as u32) + 0x10000 * (bytes[2] as u32) + 0x1000000 * (
    bytes[3] as u32)
}

/// Decoding gives back the word that was encoded.
pub proof fn law_word_round_trip(word: u32)
    ensures
        le_bytes(word).len() == 4,
        le_bytes(word)[0] + 0x100 * le_bytes(word)[1] + 0x10000 * le_bytes(word)[2] + 0x1000000
            * le_bytes(word)[3] == word,
{
}

/// The lines of a text. A line ends with a line feed, or with a carriage return and a line feed;
/// neither is part of the line. The last line need not be ended.
pub open spec fn lines_of(text: Seq<char>) -> Seq<Seq<char>>
    decreases text.len(),
{
    if text.len() == 0 {
        seq![]
    } else {
        proof {
            text.index_of_first_ensures('\n');
        }
        match text.index_of_first('\n') {
            None => seq![text],
            Some(end) => {
                let line = text.take(end);
                let line = if line.len() > 0 && line.last() == '\r' {
                    line.drop_last()
                } else {
                    line
                };
                seq![line] + lines_of(text.skip(end + 1))
            },
        }
    }
}

/// A text without a line feed is a single line, as it is; the empty text has no line.
pub proof fn law_unended_line(text: Seq<char>)
    requires
        !text.contains('\n'),
    ensures
        text.len() == 0 ==> lines_of(text).len() == 0,
        text.len() > 0 ==> lines_of(text) == seq![text],
{
    text.index_of_first_ensures('\n');
}

/// A line feed ends a line: what is before it, but for a carriage return right before it, is the
/// first line, and the lines of what is behind it follow. With the law on unended lines this fixes
/// the lines of every text.
pub proof fn law_ended_line(line: Seq<char>, rest: Seq<char>)
    requires
        !line.contains('\n'),
    ensures
        line.len() == 0 || line.last() != '\r' ==> lines_of(line.push('\n') + rest) == seq![line]
            + lines_of(rest),
        line.len() > 0 && line.last() == '\r' ==> lines_of(line.push('\n') + rest)
            == seq![line.drop_last()] + lines_of(rest),
{
    let text = line.push('\n') + rest;
    let end = line.len() as int;
    assert(text[end] == '\n');
    text.index_of_first_ensures('\n');
    assert(text.contains('\n'));
    let first = text.index_of_first('\n')->0;
    assert(first == end) by {
        if first < end {
            assert(line[first] == '\n');
        }
    }
    assert(text.take(end) =~= line);
    assert(text.skip(end + 1) =~= rest);
}

/// The texts that a vector of strings holds, one for each.
pub proof fn law_texts(strings: Seq<String>)
    ensures
        texts(strings).len() == strings.len(),
        forall|i: int| 0 <= i < strings.len() ==> texts(strings)[i] == (#[trigger] strings[i])@,
{
}

/// The texts that a vector of strings holds.
pub open spec fn texts(strings: Seq<String>) -> Seq<Seq<char>> {
    strings.map_values(|s: String| s@)
}

/// `String::from_utf8`: the text that the bytes encode, or nothing where they are no UTF-8.
#[verifier::external_body]
fn text_from_utf8(bytes: Vec<u8>) -> (res: Option<String>)
    ensures
        match res {
            Some(text) => valid_utf8(bytes@) && text@ == decode_utf8(bytes@),
            None => !valid_utf8(bytes@),
        },
{
    String::from_utf8(bytes).ok()
}

/// The characters of a string.
fn characters(text: &String) -> (res: Vec<char>)
    ensures
        res@ == text@,
{
    let mut res: Vec<char> = Vec::new();
    for c in it: text.as_str().chars()
        invariant
            it.seq() == text@,
            res@ == text@.take(it.index()),
    {
        res.push(c);
    }
    res
}

/// A message from the device, whole and line by line.
pub struct DeviceMessage {
    pub text: String,
    pub lines: Vec<String>,
}

/// Splits a text into its lines.
pub fn split_lines(text: &String) -> (res: Vec<String>)
    ensures
        texts(res@) == lines_of(text@),
        res@.len() == lines_of(text@).len(),
        forall|i: int| 0 <= i < res@.len() ==> (#[trigger] res@[i])@ == lines_of(text@)[i],
{
    let chars: Vec<char> = characters(text);
    let mut lines: Vec<String> = Vec::new();
    let mut start: usize = 0;
    assert(chars@.skip(0) =~= text@);
    assert(texts(lines@) + lines_of(text@) =~= lines_of(text@));
    while start < chars.len()
        invariant
            chars@ == text@,
            start <= chars@.len(),
            texts(lines@) + lines_of(text@.skip(start as int)) == lines_of(text@),
        decreases chars@.len() - start,
    {
        let ghost rest = text@.skip(start as int);
        let mut end: usize = start;
        while end < chars.len() && chars[end] != '\n'
            invariant
                start <= end <= chars@.len(),
                forall|i: int| start <= i < end ==> chars@[i] != '\n',
            decreases chars@.len() - end,
        {
            end += 1;
        }
        let ended: bool = end < chars.len();
        let stop: usize = if ended && end > start && chars[end - 1] == '\r' {
            end - 1
        } else {
            end
        };
        let line: String = text.as_str().substring_char(start, stop).to_owned();
        let next: usize = if ended {
            end + 1
        } else {
            end
        };
        proof {
            rest.index_of_first_ensures('\n');
            if ended {
                assert(rest[end - start] == '\n');
                let first = rest.index_of_first('\n')->0;
                assert(rest[first] == chars@[start + first]);
                assert(first == end - start) by {
                    if first > end - start {
                        assert(rest[end - start] != '\n');
                    }
                }
                let body = rest.take(first);
                assert(body =~= text@.subrange(start as int, end as int));
                if end > start {
                    assert(body.last() == chars@[end - 1]);
                }
                if stop < end {
                    assert(line@ =~= body.drop_last());
                } else {
                    assert(line@ =~= body);
                }
                assert(rest.skip(first + 1) =~= text@.skip(next as int));
                assert(lines_of(rest) == seq![line@] + lines_of(text@.skip(next as int)));
            } else {
                assert(!rest.contains('\n')) by {
                    if rest.contains('\n') {
                        let k = rest.index_of('\n');
                        assert(rest[k] == chars@[start + k]);
                    }
                }
                assert(line@ =~= rest);
                assert(text@.skip(next as int).len() == 0);
                assert(lines_of(rest) =~= seq![line@] + lines_of(text@.skip(next as int)));
            }
        }
        let ghost before = lines@;
        lines.push(line);
        proof {
            assert(texts(lines@) =~= texts(before).push(line@));
            assert(texts(lines@) + lines_of(text@.skip(next as int)) =~= texts(before) + (
            seq![line@] + lines_of(text@.skip(next as int))));
        }
        start = next;
    }
    assert(text@.skip(start as int).len() == 0);
    assert(texts(lines@) + lines_of(text@.skip(start as int)) =~= texts(lines@));
    assert forall|i: int| 0 <= i < lines@.len() implies (#[trigger] lines@[i])@ == lines_of(
        text@,
    )[i] by {
        assert(texts(lines@)[i] == lines@[i]@);
    }
    lines
}

/// Reads a message off the bytes that the device has sent. There is none where the bytes are no
/// UTF-8 text.
pub fn device_message(bytes: Vec<u8>) -> (res: Option<DeviceMessage>)
    ensures
        match res {
            Some(message) => {
                &&& valid_utf8(bytes@)
                &&& message.text@ == decode_utf8(bytes@)
                &&& texts(message.lines@) == lines_of(decode_utf8(bytes@))
                &&& message.lines@.len() == lines_of(decode_utf8(bytes@)).len()
                &&& forall|i: int|
                    0 <= i < message.lines@.len() ==> (#[trigger] message.lines@[i])@ == lines_of(
                        decode_utf8(bytes@),
                    )[i]
            },
            None => !valid_utf8(bytes@),
        },
{
    match text_from_utf8(bytes) {
        Some(text) => {
            let lines: Vec<String> = split_lines(&text);
            Some(DeviceMessage { text, lines })
        },
        None => None,
    }
}

/// What to do after the serial line has failed.
pub enum SerialFailure {
    /// The device did not answer in time: show what it may still have said, then the notice, and
    /// stop.
    Stop { notice: String },
    /// Anything else is a fault of the host.
    Abort { message: String },
}

/// Decides how a failed read or write ends. `action` says what the host was doing, `error` what
/// the serial line reported.
pub fn serial_failure(timed_out: bool, action: &str, error: &str) -> (res: SerialFailure)
    ensures
        match res {
            SerialFailure::Stop { notice } => timed_out && notice@ == "\nTimeout "@ + action@
                + ", try rebooting?"@,
            SerialFailure::Abort { message } => !timed_out && message@ == "Error "@ + action@
                + ": "@ + error@,
        },
{
    if timed_out {
        let mut notice: String = "\nTimeout ".to_owned();
        notice.append(action);
        notice.append(", try rebooting?");
        SerialFailure::Stop { notice }
    } else {
        let mut message: String = "Error ".to_owned();
        message.append(action);
        message.append(": ");
        message.append(error);
        SerialFailure::Abort { message }
    }
}

} // verus!
