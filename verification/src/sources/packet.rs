//! The text format of packet streams: hex-encoded frames, one per line.
use vstd::prelude::*;
use crate::sources::SourceError;
use crate::text::{chars_of, hex_byte, hex_bytes, hex_digit, hex_fixed};

verus! {

/// Loads a text file of hex-encoded frames, one per line. Understands plain
/// hex (`8D4840D6202CC371C32CE0576098`) and dump1090-style raw framing
/// (`*8D4840D6202CC371C32CE0576098;`). Blank lines and lines starting with
/// `#` are ignored.
pub struct PacketStreamSource;

/// Rust's `char::is_whitespace`: the characters with the Unicode
/// `White_Space` property.
pub open spec fn is_whitespace(c: char) -> bool {
    let u = c as u32;
    ||| 9 <= u <= 13
    ||| u == 32
    ||| u == 0x85
    ||| u == 0xA0
    ||| u == 0x1680
    ||| 0x2000 <= u <= 0x200A
    ||| u == 0x2028
    ||| u == 0x2029
    ||| u == 0x202F
    ||| u == 0x205F
    ||| u == 0x3000
}

/// The value of an ASCII hexadecimal digit (`0`-`9`, `a`-`f`, `A`-`F`).
pub open spec fn hex_value(c: char) -> Option<u8> {
    let u = c as u32;
    if 48 <= u <= 57 {
        Some((u - 48) as u8)
    } else if 97 <= u <= 102 {
        Some((u - 87) as u8)
    } else if 65 <= u <= 70 {
        Some((u - 55) as u8)
    } else {
        None
    }
}

/// The values of the hexadecimal digits of a line, in order; every other
/// character (framing `*` and `;`, spaces ...) is skipped.
pub open spec fn line_nibbles(line: Seq<char>) -> Seq<u8>
    decreases line.len(),
{
    if line.len() == 0 {
        Seq::empty()
    } else {
        let rest = line_nibbles(line.drop_last());
        match hex_value(line.last()) {
            Some(v) => rest.push(v),
            None => rest,
        }
    }
}

/// The first character of the line that is not whitespace, if any.
pub open spec fn first_visible(line: Seq<char>) -> Option<char>
    decreases line.len(),
{
    if line.len() == 0 {
        None
    } else {
        match first_visible(line.drop_last()) {
            Some(c) => Some(c),
            None => if is_whitespace(line.last()) {
                None
            } else {
                Some(line.last())
            },
        }
    }
}

/// Bytes from consecutive pairs of digit values, high digit first; a last
/// unpaired digit is dropped.
pub open spec fn nibble_bytes(nibbles: Seq<u8>) -> Seq<u8> {
    Seq::new(nibbles.len() / 2, |i: int| (nibbles[2 * i] * 16 + nibbles[2 * i + 1]) as u8)
}

/// An ASCII letter in lower case; every other character unchanged.
pub open spec fn ascii_lower(c: char) -> char {
    if 'A' <= c <= 'Z' {
        (c as int + 32) as char
    } else {
        c
    }
}

/// The hexadecimal digits and their values: `0`-`9` are 0 to 9, `a`-`f` and
/// `A`-`F` are 10 to 15 in either case, and no other character is a digit.
pub proof fn lemma_hex_digits()
    ensures
        forall|c: char|
            '0' as u32 <= c as u32 <= '9' as u32 ==> #[trigger] hex_value(c) == Some(
                (c as u32 - '0' as u32) as u8,
            ),
        forall|c: char|
            'a' as u32 <= c as u32 <= 'f' as u32 ==> #[trigger] hex_value(c) == Some(
                (c as u32 - 'a' as u32 + 10) as u8,
            ),
        forall|c: char|
            'A' as u32 <= c as u32 <= 'F' as u32 ==> #[trigger] hex_value(c) == Some(
                (c as u32 - 'A' as u32 + 10) as u8,
            ),
        forall|c: char|
            !('0' as u32 <= c as u32 <= '9' as u32) && !('a' as u32 <= c as u32 <= 'f' as u32)
                && !('A' as u32 <= c as u32 <= 'F' as u32) ==> #[trigger] hex_value(c) is None,
        forall|c: char| #[trigger] hex_value(ascii_lower(c)) == hex_value(c),
{
    assert('0' as u32 == 48 && '9' as u32 == 57 && 'a' as u32 == 97 && 'f' as u32 == 102);
    assert('A' as u32 == 65 && 'F' as u32 == 70);
}

proof fn lemma_lower_nibbles(line: Seq<char>)
    ensures
        line_nibbles(line.map_values(|c: char| ascii_lower(c))) == line_nibbles(line),
        first_visible(line.map_values(|c: char| ascii_lower(c))) == match first_visible(line) {
            Some(c) => Some(ascii_lower(c)),
            None => None,
        },
    decreases line.len(),
{
    let low = line.map_values(|c: char| ascii_lower(c));
    if line.len() > 0 {
        lemma_hex_digits();
        assert(low.drop_last() =~= line.drop_last().map_values(|c: char| ascii_lower(c)));
        assert(low.last() == ascii_lower(line.last()));
        lemma_lower_nibbles(line.drop_last());
        assert(is_whitespace(ascii_lower(line.last())) == is_whitespace(line.last()));
    }
}

/// Hexadecimal digits are read in either case: a line and its ASCII
/// lower-cased form hold the same frame.
pub proof fn lemma_lower_case_line(line: Seq<char>)
    ensures
        line_frame(line.map_values(|c: char| ascii_lower(c))) == line_frame(line),
{
    lemma_lower_nibbles(line);
    match first_visible(line) {
        Some(c) => {
            assert(ascii_lower(c) == '#' <==> c == '#');
        },
        None => {},
    }
}

/// The frame a line holds: none for a comment (`#` as first visible
/// character) or a line with fewer than two hexadecimal digits.
pub open spec fn line_frame(line: Seq<char>) -> Option<Seq<u8>> {
    if first_visible(line) == Some('#') || line_nibbles(line).len() < 2 {
        None
    } else {
        Some(nibble_bytes(line_nibbles(line)))
    }
}

/// The text cut at each newline character (a text without newline is one
/// line; the newlines themselves belong to no line).
pub open spec fn split_lines(text: Seq<char>) -> Seq<Seq<char>>
    decreases text.len(),
{
    if text.len() == 0 {
        seq![Seq::empty()]
    } else {
        let lines = split_lines(text.drop_last());
        if text.last() == '\n' {
            lines.push(Seq::empty())
        } else {
            lines.update(lines.len() - 1, lines.last().push(text.last()))
        }
    }
}

/// The frames of the lines that hold one, in order.
pub open spec fn frames_of_lines(lines: Seq<Seq<char>>) -> Seq<Seq<u8>>
    decreases lines.len(),
{
    if lines.len() == 0 {
        Seq::empty()
    } else {
        let frames = frames_of_lines(lines.drop_last());
        match line_frame(lines.last()) {
            Some(f) => frames.push(f),
            None => frames,
        }
    }
}

/// The frames of a packet stream text, in order.
pub open spec fn text_frames(text: Seq<char>) -> Seq<Seq<u8>> {
    frames_of_lines(split_lines(text))
}

proof fn lemma_split_lines_nonempty(text: Seq<char>)
    ensures
        split_lines(text).len() >= 1,
    decreases text.len(),
{
    if text.len() > 0 {
        lemma_split_lines_nonempty(text.drop_last());
    }
}

proof fn lemma_nibbles_small(line: Seq<char>)
    ensures
        forall|j: int| 0 <= j < line_nibbles(line).len() ==> #[trigger] line_nibbles(line)[j] < 16,
    decreases line.len(),
{
    if line.len() > 0 {
        lemma_nibbles_small(line.drop_last());
        let rest = line_nibbles(line.drop_last());
        let c = line.last();
        assert(hex_value(c) matches Some(v) ==> v < 16);
        assert forall|j: int| 0 <= j < line_nibbles(line).len() implies #[trigger] line_nibbles(
            line,
        )[j] < 16 by {
            if j < rest.len() {
                assert(line_nibbles(line)[j] == rest[j]);
            }
        }
    }
}

/// Whether a character is whitespace (`char::is_whitespace`).
pub fn is_whitespace_exec(c: char) -> (b: bool)
    ensures
        b == is_whitespace(c),
{
    let u = c as u32;
    (9 <= u && u <= 13) || u == 32 || u == 0x85 || u == 0xA0 || u == 0x1680 || (0x2000 <= u && u
        <= 0x200A) || u == 0x2028 || u == 0x2029 || u == 0x202F || u == 0x205F || u == 0x3000
}

fn hex_value_exec(c: char) -> (v: Option<u8>)
    ensures
        v == hex_value(c),
{
    let u = c as u32;
    if 48 <= u && u <= 57 {
        Some((u - 48) as u8)
    } else if 97 <= u && u <= 102 {
        Some((u - 87) as u8)
    } else if 65 <= u && u <= 70 {
        Some((u - 55) as u8)
    } else {
        None
    }
}

fn bytes_of_nibbles(nibbles: &Vec<u8>) -> (bytes: Vec<u8>)
    requires
        forall|j: int| 0 <= j < nibbles@.len() ==> #[trigger] nibbles@[j] < 16,
    ensures
        bytes@ == nibble_bytes(nibbles@),
{
    let mut bytes: Vec<u8> = Vec::new();
    let half = nibbles.len() / 2;
    let mut k: usize = 0;
    while k < half
        invariant
            half == nibbles@.len() / 2,
            0 <= k <= half,
            forall|j: int| 0 <= j < nibbles@.len() ==> #[trigger] nibbles@[j] < 16,
            bytes@ =~= nibble_bytes(nibbles@).take(k as int),
        decreases half - k,
    {
        let len = nibbles.len();
        assert(2 * k + 1 < len) by (nonlinear_arith)
            requires
                k < half,
                half == len / 2,
        ;
        let idx: usize = k + k;
        let hi = nibbles[idx];
        let lo = nibbles[idx + 1];
        bytes.push(hi * 16 + lo);
        k = k + 1;
    }
    bytes
}

/// Appends to `frames` the frame of a finished line, given the line's first
/// visible character and its digit values, if the line holds a frame.
fn finish_line(first: Option<char>, nibbles: &Vec<u8>, frames: &mut Vec<Vec<u8>>)
    requires
        forall|j: int| 0 <= j < nibbles@.len() ==> #[trigger] nibbles@[j] < 16,
    ensures
        final(frames)@.map_values(|f: Vec<u8>| f@) == match (if first == Some('#') || nibbles@.len() < 2 {
            None
        } else {
            Some(nibble_bytes(nibbles@))
        }) {
            Some(f) => old(frames)@.map_values(|f: Vec<u8>| f@).push(f),
            None => old(frames)@.map_values(|f: Vec<u8>| f@),
        },
{
    let comment = match first {
        Some(c) => c == '#',
        None => false,
    };
    if !comment && nibbles.len() >= 2 {
        let bytes = bytes_of_nibbles(nibbles);
        let ghost before = frames@;
        frames.push(bytes);
        assert(frames@.map_values(|f: Vec<u8>| f@) =~= before.map_values(|f: Vec<u8>| f@).push(
            nibble_bytes(nibbles@),
        ));
    }
}

/// The bytes as two-digit upper-case hexadecimal numbers with nothing
/// between them, e.g. `[0x8d, 0x48]` is `"8D48"`.
pub open spec fn hex_string(bytes: Seq<u8>) -> Seq<char>
    decreases bytes.len(),
{
    if bytes.len() == 0 {
        Seq::empty()
    } else {
        hex_string(bytes.drop_last()) + hex_byte(bytes.last())
    }
}

/// The digit values of the bytes' hexadecimal notation: high then low digit
/// of each byte.
pub open spec fn byte_nibbles(bytes: Seq<u8>) -> Seq<u8> {
    Seq::new(
        2 * bytes.len(),
        |j: int|
            if j % 2 == 0 {
                (bytes[j / 2] / 16) as u8
            } else {
                (bytes[j / 2] % 16) as u8
            },
    )
}

proof fn lemma_hex_digit_value(d: int)
    requires
        0 <= d < 16,
    ensures
        hex_value(hex_digit(d)) == Some(d as u8),
        !is_whitespace(hex_digit(d)),
        hex_digit(d) != '#',
{
}

proof fn lemma_nibbles_append(a: Seq<char>, b: Seq<char>)
    ensures
        line_nibbles(a + b) == line_nibbles(a) + line_nibbles(b),
    decreases b.len(),
{
    if b.len() == 0 {
        assert(a + b =~= a);
        assert(line_nibbles(a) + line_nibbles(b) =~= line_nibbles(a));
    } else {
        lemma_nibbles_append(a, b.drop_last());
        assert((a + b).drop_last() =~= a + b.drop_last());
        assert((a + b).last() == b.last());
        match hex_value(b.last()) {
            Some(v) => {
                assert(line_nibbles(a) + line_nibbles(b) =~= (line_nibbles(a) + line_nibbles(
                    b.drop_last(),
                )).push(v));
            },
            None => {},
        }
    }
}

proof fn lemma_nibbles_single(c: char)
    ensures
        line_nibbles(seq![c]) == match hex_value(c) {
            Some(v) => seq![v],
            None => Seq::<u8>::empty(),
        },
{
    assert(seq![c].drop_last() =~= Seq::<char>::empty());
    assert(seq![c].last() == c);
    assert(line_nibbles(Seq::<char>::empty()) == Seq::<u8>::empty());
    match hex_value(c) {
        Some(v) => {
            assert(Seq::<u8>::empty().push(v) =~= seq![v]);
        },
        None => {},
    }
}

proof fn lemma_byte_digits(b: u8)
    ensures
        hex_byte(b) == seq![hex_digit(b as int / 16), hex_digit(b as int % 16)],
        line_nibbles(hex_byte(b)) == seq![(b / 16) as u8, (b % 16) as u8],
{
    let h = hex_byte(b);
    assert(hex_fixed(b as nat / 16 / 16, 0) =~= Seq::<char>::empty());
    assert((b as nat / 16) % 16 == b as int / 16);
    assert(hex_fixed(b as nat / 16, 1) =~= seq![hex_digit(b as int / 16)]);
    assert(h == hex_fixed(b as nat / 16, 1).push(hex_digit((b as nat % 16) as int)));
    assert(h =~= seq![hex_digit(b as int / 16), hex_digit(b as int % 16)]);
    lemma_hex_digit_value(b as int / 16);
    lemma_hex_digit_value(b as int % 16);
    assert(h.drop_last() =~= seq![hex_digit(b as int / 16)]);
    lemma_nibbles_single(hex_digit(b as int / 16));
    assert(h.last() == hex_digit(b as int % 16));
    assert(line_nibbles(h) =~= seq![(b / 16) as u8, (b % 16) as u8]);
}

proof fn lemma_byte_nibbles_push(bytes: Seq<u8>)
    requires
        bytes.len() > 0,
    ensures
        byte_nibbles(bytes) == byte_nibbles(bytes.drop_last()) + seq![
            (bytes.last() / 16) as u8,
            (bytes.last() % 16) as u8,
        ],
{
    let rest = bytes.drop_last();
    let lhs = byte_nibbles(bytes);
    let rhs = byte_nibbles(rest) + seq![(bytes.last() / 16) as u8, (bytes.last() % 16) as u8];
    assert forall|j: int| 0 <= j < lhs.len() implies lhs[j] == rhs[j] by {
        if j < 2 * rest.len() {
            assert(j / 2 < rest.len());
            assert(rest[j / 2] == bytes[j / 2]);
        } else {
            assert(j / 2 == bytes.len() - 1);
        }
    }
    assert(lhs =~= rhs);
}

proof fn lemma_hex_string_nibbles(bytes: Seq<u8>)
    ensures
        line_nibbles(hex_string(bytes)) == byte_nibbles(bytes),
    decreases bytes.len(),
{
    if bytes.len() == 0 {
        assert(byte_nibbles(bytes) =~= Seq::<u8>::empty());
    } else {
        lemma_hex_string_nibbles(bytes.drop_last());
        lemma_nibbles_append(hex_string(bytes.drop_last()), hex_byte(bytes.last()));
        lemma_byte_digits(bytes.last());
        lemma_byte_nibbles_push(bytes);
    }
}

proof fn lemma_hex_bytes_nibbles(bytes: Seq<u8>)
    ensures
        line_nibbles(hex_bytes(bytes)) == byte_nibbles(bytes),
    decreases bytes.len(),
{
    if bytes.len() == 0 {
        assert(byte_nibbles(bytes) =~= Seq::<u8>::empty());
    } else if bytes.len() == 1 {
        lemma_byte_digits(bytes[0]);
        lemma_byte_nibbles_push(bytes);
        assert(byte_nibbles(bytes.drop_last()) =~= Seq::<u8>::empty());
        assert(bytes.last() == bytes[0]);
    } else {
        let rest = bytes.drop_last();
        lemma_hex_bytes_nibbles(rest);
        lemma_nibbles_append(hex_bytes(rest) + seq![' '], hex_byte(bytes.last()));
        lemma_nibbles_append(hex_bytes(rest), seq![' ']);
        lemma_nibbles_single(' ');
        lemma_byte_digits(bytes.last());
        lemma_byte_nibbles_push(bytes);
    }
}

proof fn lemma_nibble_bytes_of_bytes(bytes: Seq<u8>)
    ensures
        nibble_bytes(byte_nibbles(bytes)) == bytes,
{
    let n = byte_nibbles(bytes);
    assert(n.len() / 2 == bytes.len());
    assert forall|i: int| 0 <= i < bytes.len() implies #[trigger] nibble_bytes(n)[i] == bytes[i] by {
        assert((2 * i) % 2 == 0);
        assert((2 * i + 1) % 2 == 1);
        assert((2 * i) / 2 == i);
        assert((2 * i + 1) / 2 == i);
        assert(n[2 * i] == bytes[i] / 16);
        assert(n[2 * i + 1] == bytes[i] % 16);
    }
    assert(nibble_bytes(n) =~= bytes);
}

proof fn lemma_first_visible_prefix(a: Seq<char>, b: Seq<char>)
    requires
        a.len() > 0,
        !is_whitespace(a[0]),
    ensures
        first_visible(a + b) == Some(a[0]),
    decreases a.len() + b.len(),
{
    if b.len() == 0 {
        assert(a + b =~= a);
        if a.len() == 1 {
            assert(a.drop_last() =~= Seq::<char>::empty());
            assert(first_visible(Seq::<char>::empty()) == None::<char>);
            assert(a.last() == a[0]);
        } else {
            assert(a.drop_last()[0] == a[0]);
            lemma_first_visible_prefix(a.drop_last(), b);
            assert(a.drop_last() + b =~= a.drop_last());
        }
    } else {
        lemma_first_visible_prefix(a, b.drop_last());
        assert((a + b).drop_last() =~= a + b.drop_last());
    }
}

/// The generic inspector's hex dump of a non-empty frame, read as a line of
/// a packet stream, gives back that frame.
pub proof fn lemma_hex_dump_reads_back(frame: Seq<u8>)
    requires
        frame.len() > 0,
    ensures
        line_frame(hex_bytes(frame)) == Some(frame),
{
    lemma_hex_bytes_nibbles(frame);
    lemma_nibble_bytes_of_bytes(frame);
    let text = hex_bytes(frame);
    if frame.len() == 1 {
        lemma_byte_digits(frame[0]);
        lemma_first_visible_prefix(text, Seq::<char>::empty());
        assert(text + Seq::<char>::empty() =~= text);
    } else {
        let rest = frame.drop_last();
        lemma_hex_dump_first(rest);
        lemma_first_visible_prefix(hex_bytes(rest), seq![' '] + hex_byte(frame.last()));
        assert(text =~= hex_bytes(rest) + (seq![' '] + hex_byte(frame.last())));
    }
}

proof fn lemma_hex_dump_first(bytes: Seq<u8>)
    requires
        bytes.len() > 0,
    ensures
        hex_bytes(bytes).len() > 0,
        hex_bytes(bytes)[0] == hex_digit(bytes[0] as int / 16),
        !is_whitespace(hex_bytes(bytes)[0]),
        hex_bytes(bytes)[0] != '#',
    decreases bytes.len(),
{
    lemma_byte_digits(bytes[0]);
    lemma_hex_digit_value(bytes[0] as int / 16);
    if bytes.len() > 1 {
        lemma_hex_dump_first(bytes.drop_last());
    }
}

proof fn lemma_framing_nibbles(text: Seq<char>)
    ensures
        line_nibbles(seq!['*'] + text + seq![';']) == line_nibbles(text),
{
    lemma_nibbles_append(seq!['*'] + text, seq![';']);
    lemma_nibbles_append(seq!['*'], text);
    lemma_nibbles_single('*');
    lemma_nibbles_single(';');
    assert(Seq::<u8>::empty() + line_nibbles(text) =~= line_nibbles(text));
    assert(line_nibbles(text) + Seq::<u8>::empty() =~= line_nibbles(text));
}

/// A non-empty frame written in hexadecimal, plain or in dump1090 raw
/// framing (`*` before, `;` after), read as a line of a packet stream, gives
/// back that frame.
pub proof fn lemma_hex_line_reads_back(frame: Seq<u8>)
    requires
        frame.len() > 0,
    ensures
        line_frame(hex_string(frame)) == Some(frame),
        line_frame(seq!['*'] + hex_string(frame) + seq![';']) == Some(frame),
{
    lemma_hex_string_nibbles(frame);
    lemma_nibble_bytes_of_bytes(frame);
    let text = hex_string(frame);
    lemma_hex_string_first(frame);
    lemma_first_visible_prefix(text, Seq::<char>::empty());
    assert(text + Seq::<char>::empty() =~= text);
    let framed = seq!['*'] + text + seq![';'];
    lemma_first_visible_prefix(seq!['*'], text + seq![';']);
    assert(framed =~= seq!['*'] + (text + seq![';']));
    lemma_framing_nibbles(text);
}

proof fn lemma_hex_string_first(bytes: Seq<u8>)
    requires
        bytes.len() > 0,
    ensures
        hex_string(bytes).len() > 0,
        !is_whitespace(hex_string(bytes)[0]),
        hex_string(bytes)[0] != '#',
    decreases bytes.len(),
{
    lemma_byte_digits(bytes.last());
    lemma_hex_digit_value(bytes.last() as int / 16);
    if bytes.len() > 1 {
        lemma_hex_string_first(bytes.drop_last());
    } else {
        assert(hex_string(bytes.drop_last()) =~= Seq::<char>::empty());
        assert(hex_string(bytes) =~= hex_byte(bytes.last()));
    }
}

proof fn lemma_blank_no_nibbles(line: Seq<char>)
    requires
        forall|i: int| 0 <= i < line.len() ==> is_whitespace(#[trigger] line[i]),
    ensures
        line_nibbles(line).len() == 0,
    decreases line.len(),
{
    if line.len() > 0 {
        assert(is_whitespace(line[line.len() - 1]));
        lemma_blank_no_nibbles(line.drop_last());
    }
}

/// Blank lines (whitespace only) and comment lines (`#` as first visible
/// character) hold no frame.
pub proof fn lemma_ignored_lines(line: Seq<char>)
    requires
        (forall|i: int| 0 <= i < line.len() ==> is_whitespace(#[trigger] line[i]))
            || first_visible(line) == Some('#'),
    ensures
        line_frame(line) is None,
{
    if first_visible(line) != Some('#') {
        lemma_blank_no_nibbles(line);
    }
}

proof fn lemma_split_append_line(text: Seq<char>, line: Seq<char>)
    requires
        !line.contains('\n'),
    ensures
        split_lines(text + seq!['\n'] + line) == split_lines(text).push(line),
    decreases line.len(),
{
    let t = text + seq!['\n'];
    if line.len() == 0 {
        assert(t + line =~= t);
        assert(t.drop_last() =~= text);
        assert(t.last() == '\n');
        assert(line =~= Seq::<char>::empty());
    } else {
        let rest = line.drop_last();
        assert(!rest.contains('\n')) by {
            if rest.contains('\n') {
                let k = choose|k: int| 0 <= k < rest.len() && rest[k] == '\n';
                assert(line[k] == '\n');
            }
        }
        lemma_split_append_line(text, rest);
        assert((t + line).drop_last() =~= t + rest);
        assert((t + line).last() == line.last());
        assert(line[line.len() - 1] == line.last());
        lemma_split_lines_nonempty(t + rest);
        let before = split_lines(text).push(rest);
        assert(before.update(before.len() - 1, rest.push(line.last())) =~= split_lines(text).push(
            line,
        )) by {
            assert(rest.push(line.last()) =~= line);
        }
    }
}

/// Appending a line (after a newline) to a packet stream text appends the
/// frame that line holds, if any, to the frames of the text: one frame per
/// line, in order.
pub proof fn lemma_append_line(text: Seq<char>, line: Seq<char>)
    requires
        !line.contains('\n'),
    ensures
        text_frames(text + seq!['\n'] + line) == match line_frame(line) {
            Some(f) => text_frames(text).push(f),
            None => text_frames(text),
        },
{
    lemma_split_append_line(text, line);
    let lines = split_lines(text).push(line);
    assert(lines.drop_last() =~= split_lines(text));
}

proof fn lemma_split_concat(a: Seq<char>, b: Seq<char>)
    ensures
        split_lines(a + seq!['\n'] + b) == split_lines(a) + split_lines(b),
    decreases b.len(),
{
    let t = a + seq!['\n'];
    if b.len() == 0 {
        assert(t + b =~= t);
        assert(t.drop_last() =~= a);
        assert(t.last() == '\n');
        assert(split_lines(a).push(Seq::<char>::empty()) =~= split_lines(a) + seq![
            Seq::<char>::empty(),
        ]);
    } else {
        let rest = b.drop_last();
        let c = b.last();
        lemma_split_concat(a, rest);
        assert((t + b).drop_last() =~= t + rest);
        assert((t + b).last() == c);
        lemma_split_lines_nonempty(rest);
        lemma_split_lines_nonempty(a);
        let x = split_lines(a);
        let y = split_lines(rest);
        if c == '\n' {
            assert((x + y).push(Seq::<char>::empty()) =~= x + y.push(Seq::<char>::empty()));
        } else {
            let xy = x + y;
            assert(xy.last() == y.last());
            assert(xy.update(xy.len() - 1, xy.last().push(c)) =~= x + y.update(
                y.len() - 1,
                y.last().push(c),
            ));
        }
    }
}

proof fn lemma_frames_concat(x: Seq<Seq<char>>, y: Seq<Seq<char>>)
    ensures
        frames_of_lines(x + y) == frames_of_lines(x) + frames_of_lines(y),
    decreases y.len(),
{
    if y.len() == 0 {
        assert(x + y =~= x);
        assert(frames_of_lines(x) + frames_of_lines(y) =~= frames_of_lines(x));
    } else {
        lemma_frames_concat(x, y.drop_last());
        assert((x + y).drop_last() =~= x + y.drop_last());
        assert((x + y).last() == y.last());
        match line_frame(y.last()) {
            Some(f) => {
                assert((frames_of_lines(x) + frames_of_lines(y.drop_last())).push(f)
                    =~= frames_of_lines(x) + frames_of_lines(y.drop_last()).push(f));
            },
            None => {},
        }
    }
}

proof fn lemma_single_line(line: Seq<char>)
    requires
        !line.contains('\n'),
    ensures
        split_lines(line) == seq![line],
        frames_of_lines(seq![line]) == match line_frame(line) {
            Some(f) => seq![f],
            None => Seq::<Seq<u8>>::empty(),
        },
    decreases line.len(),
{
    if line.len() > 0 {
        let rest = line.drop_last();
        assert(!rest.contains('\n')) by {
            if rest.contains('\n') {
                let k = choose|k: int| 0 <= k < rest.len() && rest[k] == '\n';
                assert(line[k] == '\n');
            }
        }
        lemma_single_line(rest);
        assert(line[line.len() - 1] == line.last());
        assert(line.last() != '\n');
        assert(rest.push(line.last()) =~= line);
        assert(seq![rest].last() == rest);
        assert(seq![rest].update(0, line) =~= seq![line]);
    } else {
        assert(line =~= Seq::<char>::empty());
    }
    assert(seq![line].drop_last() =~= Seq::<Seq<char>>::empty());
    assert(seq![line].last() == line);
    assert(frames_of_lines(Seq::<Seq<char>>::empty()) == Seq::<Seq<u8>>::empty());
    match line_frame(line) {
        Some(f) => {
            assert(Seq::<Seq<u8>>::empty().push(f) =~= seq![f]);
        },
        None => {},
    }
}

/// The frames of a text with one line `line` between the texts `before` and
/// `after` (in the middle, at the start or at the end): the frames of the
/// text before, the frame of that line if it holds one, and the frames of the
/// text after.
pub proof fn lemma_frames_around_line(before: Seq<char>, line: Seq<char>, after: Seq<char>)
    requires
        !line.contains('\n'),
    ensures
        text_frames(before + seq!['\n'] + line + seq!['\n'] + after) == text_frames(before)
            + frames_of_lines(seq![line]) + text_frames(after),
        text_frames(line + seq!['\n'] + after) == frames_of_lines(seq![line]) + text_frames(
            after,
        ),
        text_frames(before + seq!['\n'] + line) == text_frames(before) + frames_of_lines(
            seq![line],
        ),
        text_frames(before + seq!['\n'] + after) == text_frames(before) + text_frames(after),
{
    lemma_single_line(line);
    let l = line + seq!['\n'] + after;
    assert(before + seq!['\n'] + line + seq!['\n'] + after =~= before + seq!['\n'] + l);
    lemma_split_concat(before, l);
    lemma_split_concat(line, after);
    lemma_split_concat(before, line);
    lemma_split_concat(before, after);
    lemma_frames_concat(split_lines(before), split_lines(l));
    lemma_frames_concat(seq![line], split_lines(after));
    lemma_frames_concat(split_lines(before), seq![line]);
    lemma_frames_concat(split_lines(before), split_lines(after));
}

/// Inserting a blank line (whitespace only) or a comment line (`#` as first
/// visible character) anywhere in a packet stream text, in the middle, at the
/// start or at the end, leaves its frames unchanged.
pub proof fn lemma_insert_ignored_line(before: Seq<char>, line: Seq<char>, after: Seq<char>)
    requires
        !line.contains('\n'),
        (forall|i: int| 0 <= i < line.len() ==> is_whitespace(#[trigger] line[i]))
            || first_visible(line) == Some('#'),
    ensures
        text_frames(before + seq!['\n'] + line + seq!['\n'] + after) == text_frames(
            before + seq!['\n'] + after,
        ),
        text_frames(line + seq!['\n'] + after) == text_frames(after),
        text_frames(before + seq!['\n'] + line) == text_frames(before),
{
    lemma_ignored_lines(line);
    lemma_single_line(line);
    lemma_frames_around_line(before, line, after);
    assert(frames_of_lines(seq![line]) =~= Seq::<Seq<u8>>::empty());
    assert(text_frames(before) + Seq::<Seq<u8>>::empty() =~= text_frames(before));
    assert(Seq::<Seq<u8>>::empty() + text_frames(after) =~= text_frames(after));
    assert(text_frames(before) + Seq::<Seq<u8>>::empty() + text_frames(after) =~= text_frames(
        before,
    ) + text_frames(after));
}

/// dump1090 raw framing: a line that is not a comment holds the same frame
/// (or none) whether or not it is wrapped as `*` + line + `;`.
pub proof fn lemma_framing_keeps_line_frame(line: Seq<char>)
    requires
        first_visible(line) != Some('#'),
    ensures
        line_frame(seq!['*'] + line + seq![';']) == line_frame(line),
{
    lemma_framing_nibbles(line);
    lemma_first_visible_prefix(seq!['*'], line + seq![';']);
    assert(seq!['*'] + line + seq![';'] =~= seq!['*'] + (line + seq![';']));
}

/// Wrapping any line that is not a comment as `*` + line + `;`, anywhere in a
/// packet stream text (middle, start or end), leaves its frames unchanged.
pub proof fn lemma_wrap_line(before: Seq<char>, line: Seq<char>, after: Seq<char>)
    requires
        !line.contains('\n'),
        first_visible(line) != Some('#'),
    ensures
        text_frames(before + seq!['\n'] + (seq!['*'] + line + seq![';']) + seq!['\n'] + after)
            == text_frames(before + seq!['\n'] + line + seq!['\n'] + after),
        text_frames((seq!['*'] + line + seq![';']) + seq!['\n'] + after) == text_frames(
            line + seq!['\n'] + after,
        ),
        text_frames(before + seq!['\n'] + (seq!['*'] + line + seq![';'])) == text_frames(
            before + seq!['\n'] + line,
        ),
{
    let w = seq!['*'] + line + seq![';'];
    assert(!w.contains('\n')) by {
        if w.contains('\n') {
            let k = choose|k: int| 0 <= k < w.len() && w[k] == '\n';
            assert(k != 0 && k != w.len() - 1);
            assert(line[k - 1] == '\n');
        }
    }
    lemma_framing_keeps_line_frame(line);
    lemma_frames_around_line(before, line, after);
    lemma_frames_around_line(before, w, after);
    lemma_single_line(line);
    lemma_single_line(w);
}

/// A line that a packet stream ignores: no newline, and blank (whitespace
/// only) or a comment (`#` as first visible character).
pub open spec fn ignorable_line(line: Seq<char>) -> bool {
    &&& !line.contains('\n')
    &&& (forall|i: int| 0 <= i < line.len() ==> is_whitespace(#[trigger] line[i]))
        || first_visible(line) == Some('#')
}

/// A line that may be wrapped in dump1090 raw framing: no newline, and not a
/// comment.
pub open spec fn wrappable_line(line: Seq<char>) -> bool {
    &&& !line.contains('\n')
    &&& first_visible(line) != Some('#')
}

/// `line` wrapped in dump1090 raw framing.
pub open spec fn framed(line: Seq<char>) -> Seq<char> {
    seq!['*'] + line + seq![';']
}

/// `to` is `from` with the ignorable `line` inserted (between `before` and
/// `after`, at the start before `after`, or at the end after `before`), or
/// with the wrappable `line` wrapped in raw framing (between `before` and
/// `after`, at the start, at the end, or as the whole text).
pub open spec fn edit_at(
    from: Seq<char>,
    to: Seq<char>,
    before: Seq<char>,
    line: Seq<char>,
    after: Seq<char>,
) -> bool {
    let nl = seq!['\n'];
    ||| ignorable_line(line) && {
        ||| from == before + nl + after && to == before + nl + line + nl + after
        ||| from == after && to == line + nl + after
        ||| from == before && to == before + nl + line
    }
    ||| wrappable_line(line) && {
        ||| from == before + nl + line + nl + after && to == before + nl + framed(line) + nl
            + after
        ||| from == line + nl + after && to == framed(line) + nl + after
        ||| from == before + nl + line && to == before + nl + framed(line)
        ||| from == line && to == framed(line)
    }
}

/// `to` arises from `from` by one insertion of an ignorable line or one
/// wrapping of a line in raw framing.
pub open spec fn single_edit(from: Seq<char>, to: Seq<char>) -> bool {
    exists|before: Seq<char>, line: Seq<char>, after: Seq<char>|
        #[trigger] edit_at(from, to, before, line, after)
}

/// Each text of the sequence arises from the one before it by a single edit.
pub open spec fn edit_chain(texts: Seq<Seq<char>>) -> bool {
    &&& texts.len() >= 1
    &&& forall|i: int| 0 <= i < texts.len() - 1 ==> single_edit(#[trigger] texts[i], texts[i + 1])
}

proof fn lemma_single_edit(from: Seq<char>, to: Seq<char>)
    requires
        single_edit(from, to),
    ensures
        text_frames(to) == text_frames(from),
{
    let (before, line, after) = choose|before: Seq<char>, line: Seq<char>, after: Seq<char>|
        #[trigger] edit_at(from, to, before, line, after);
    let nl = seq!['\n'];
    if ignorable_line(line) && (from == before + nl + after && to == before + nl + line + nl
        + after || from == after && to == line + nl + after || from == before && to == before + nl
        + line) {
        lemma_insert_ignored_line(before, line, after);
    } else {
        lemma_wrap_line(before, line, after);
        if from == line && to == framed(line) {
            lemma_framing_keeps_line_frame(line);
            lemma_single_line(line);
            let w = framed(line);
            assert(!w.contains('\n')) by {
                if w.contains('\n') {
                    let k = choose|k: int| 0 <= k < w.len() && w[k] == '\n';
                    assert(line[k - 1] == '\n');
                }
            }
            lemma_single_line(w);
        }
    }
}

/// Any sequence of edits that insert blank or comment lines, or wrap lines
/// in dump1090 raw framing, leaves the frames of a packet stream text
/// unchanged.
pub proof fn lemma_edits_keep_frames(texts: Seq<Seq<char>>)
    requires
        edit_chain(texts),
    ensures
        text_frames(texts.last()) == text_frames(texts[0]),
    decreases texts.len(),
{
    if texts.len() > 1 {
        let prefix = texts.drop_last();
        assert forall|i: int| 0 <= i < prefix.len() - 1 implies single_edit(
            #[trigger] prefix[i],
            prefix[i + 1],
        ) by {
            assert(single_edit(texts[i], texts[i + 1]));
        }
        lemma_edits_keep_frames(prefix);
        let n = texts.len();
        assert(single_edit(texts[n - 2], texts[n - 1]));
        lemma_single_edit(texts[n - 2], texts[n - 1]);
    }
}

impl PacketStreamSource {
    /// The source's display name.
    pub fn name(&self) -> (name: &'static str)
        ensures
            name@ == "Packet / data stream (hex frames)"@,
    {
        "Packet / data stream (hex frames)"
    }

    /// The frames of a packet stream text, in order of their lines; an error
    /// when no line holds a frame.
    pub fn parse_frames(&self, text: &str) -> (frames: Result<Vec<Vec<u8>>, SourceError>)
        ensures
            frames is Ok <==> text_frames(text@).len() > 0,
            frames matches Ok(fs) ==> fs@.map_values(|f: Vec<u8>| f@) == text_frames(text@),
            frames matches Err(e) ==> e matches SourceError::Format(m) && m@
                == "no valid hex frames found (expected one hex-encoded frame per line)"@,
    {
        let chars = chars_of(text);
        let n = chars.len();
        let mut frames: Vec<Vec<u8>> = Vec::new();
        let mut nibbles: Vec<u8> = Vec::new();
        let mut first: Option<char> = None;
        let mut i: usize = 0;
        assert(text@.take(0) =~= Seq::<char>::empty());
        while i < n
            invariant
                n == chars@.len(),
                chars@ == text@,
                0 <= i <= n,
                split_lines(text@.take(i as int)).len() >= 1,
                frames@.map_values(|f: Vec<u8>| f@) == frames_of_lines(split_lines(text@.take(i as int)).drop_last()),
                nibbles@ == line_nibbles(split_lines(text@.take(i as int)).last()),
                first == first_visible(split_lines(text@.take(i as int)).last()),
            decreases n - i,
        {
            let ghost prefix = text@.take(i as int);
            let ghost lines = split_lines(prefix);
            let c = chars[i];
            assert(text@.take(i + 1).drop_last() =~= prefix);
            assert(text@.take(i + 1).last() == c);
            proof {
                lemma_split_lines_nonempty(prefix);
                lemma_nibbles_small(lines.last());
            }
            if c == '\n' {
                finish_line(first, &nibbles, &mut frames);
                let ghost next = lines.push(Seq::<char>::empty());
                assert(next.drop_last() =~= lines);
                assert(next.last() =~= Seq::<char>::empty());
                nibbles = Vec::new();
                first = None;
                assert(nibbles@ =~= line_nibbles(Seq::<char>::empty()));
            } else {
                let ghost line = lines.last();
                let ghost next = lines.update(lines.len() - 1, line.push(c));
                assert(next.drop_last() =~= lines.drop_last());
                assert(next.last() =~= line.push(c));
                assert(line.push(c).drop_last() =~= line);
                if first.is_none() && !is_whitespace_exec(c) {
                    first = Some(c);
                }
                match hex_value_exec(c) {
                    Some(v) => {
                        nibbles.push(v);
                    },
                    None => {},
                }
            }
            i = i + 1;
        }
        assert(text@.take(n as int) =~= text@);
        proof {
            lemma_split_lines_nonempty(text@);
            lemma_nibbles_small(split_lines(text@).last());
        }
        finish_line(first, &nibbles, &mut frames);
        if frames.len() == 0 {
            return Err(
                SourceError::Format(
                    String::from_str(
                        "no valid hex frames found (expected one hex-encoded frame per line)",
                    ),
                ),
            );
        }
        Ok(frames)
    }
}

} // verus!
