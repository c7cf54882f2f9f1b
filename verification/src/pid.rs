//! The PID motor controller: its command codes and the packets sent to it.

use vstd::prelude::*;
use vstd::string::StringExecFns;
use vstd::string::StringSliceAdditionalSpecFns;

verus! {

/// Size of the buffer used to talk to the PID controller (write capacity and read size).
pub const PACKET_SIZE: usize = 20;

/// First byte of every packet sent to the PID controller.
pub const PACKET_HEADER_FIRST: u8 = 0xAA;

/// Second byte of every packet sent to the PID controller.
pub const PACKET_HEADER_SECOND: u8 = 0x55;

/// The subsystem driven by the PID actor.
#[derive(Clone, Copy, PartialEq, Eq, Structural, Hash, Debug)]
pub enum PidSystem {
    Hello,
}

impl Default for PidSystem {
    fn default() -> (s: Self)
        ensures
            s == PidSystem::Hello,
    {
        PidSystem::Hello
    }
}

/// A command understood by the PID controller; each has a 16-bit code.
#[derive(Clone, Copy, PartialEq, Eq, Structural, Debug)]
pub enum PidCmd {
    Idk,
}

impl PidCmd {
    /// The 16-bit code of a command.
    pub open spec fn command_code(self) -> u16 {
        match self {
            PidCmd::Idk => 0x6769u16,
        }
    }

    /// Returns the 16-bit code of the command.
    pub fn code(&self) -> (c: u16)
        ensures
            c == self.command_code(),
    {
        match self {
            PidCmd::Idk => 0x6769u16,
        }
    }

    /// The low byte of the command code.
    pub fn lsb(&self) -> (b: u8)
        ensures
            b == self.command_code() % 256,
    {
        let c: u16 = self.code();
        (c % 256) as u8
    }

    /// The high byte of the command code.
    pub fn msb(&self) -> (b: u8)
        ensures
            b == self.command_code() / 256,
    {
        let c: u16 = self.code();
        (c / 256) as u8
    }
}

/// The four bytes of `x`, least significant first.
pub open spec fn le_bytes(x: u32) -> Seq<u8> {
    seq![
        (x % 256) as u8,
        ((x / 256) % 256) as u8,
        ((x / 65536) % 256) as u8,
        (x / 16777216) as u8,
    ]
}

/// The number whose little-endian bytes are `b[0..4]`.
pub open spec fn le_value(b: Seq<u8>) -> int {
    b[0] + 256 * b[1] + 65536 * b[2] + 16777216 * b[3]
}

/// The packet that asks the controller to run `cmd` with the given wheel speeds,
/// each speed given by the bit pattern of its 32-bit float.
pub open spec fn pid_packet(cmd: PidCmd, right_rpm_bits: u32, left_rpm_bits: u32) -> Seq<u8> {
    seq![
        PACKET_HEADER_FIRST,
        PACKET_HEADER_SECOND,
        (cmd.command_code() % 256) as u8,
        (cmd.command_code() / 256) as u8,
    ] + le_bytes(right_rpm_bits) + le_bytes(left_rpm_bits)
}

/// Appends the little-endian bytes of `x` to `buf`.
fn push_le_u32(buf: &mut Vec<u8>, x: u32)
    ensures
        final(buf)@ == old(buf)@ + le_bytes(x),
{
    buf.push((x % 256) as u8);
    buf.push(((x / 256) % 256) as u8);
    buf.push(((x / 65536) % 256) as u8);
    buf.push((x / 16777216) as u8);
}

/// Replaces the contents of `buf` with the packet for `cmd` and the two wheel
/// speeds (given as the bit patterns of their 32-bit floats).
pub fn write_pid_packet(buf: &mut Vec<u8>, cmd: &PidCmd, right_rpm_bits: u32, left_rpm_bits: u32)
    ensures
        final(buf)@ == pid_packet(*cmd, right_rpm_bits, left_rpm_bits),
        final(buf)@.len() == 12,
{
    buf.clear();
    buf.push(PACKET_HEADER_FIRST);
    buf.push(PACKET_HEADER_SECOND);
    buf.push(cmd.lsb());
    buf.push(cmd.msb());
    push_le_u32(buf, right_rpm_bits);
    push_le_u32(buf, left_rpm_bits);
    assert(buf@ =~= pid_packet(*cmd, right_rpm_bits, left_rpm_bits));
}

/// Reading the four little-endian bytes of a number back gives the number.
pub proof fn lemma_le_bytes_roundtrip(x: u32)
    ensures
        le_bytes(x).len() == 4,
        le_value(le_bytes(x)) == x,
{
    let b = le_bytes(x);
    assert(b[0] == x % 256);
    assert(b[1] == (x / 256) % 256);
    assert(b[2] == (x / 65536) % 256);
    assert(b[3] == x / 16777216);
    assert(x / 16777216 < 256);
}

/// The low and high bytes of a command code put together give the code back.
pub proof fn lemma_command_bytes(cmd: PidCmd)
    ensures
        (cmd.command_code() / 256) * 256 + cmd.command_code() % 256 == cmd.command_code(),
{
}

/// The speeds sent in a packet can be read back from it: bytes 4..8 hold the
/// right wheel's speed and bytes 8..12 the left wheel's, least significant first.
pub proof fn lemma_packet_speeds(cmd: PidCmd, right_rpm_bits: u32, left_rpm_bits: u32)
    ensures
        ({
            let p = pid_packet(cmd, right_rpm_bits, left_rpm_bits);
            &&& p.len() == 12
            &&& p[0] == PACKET_HEADER_FIRST
            &&& p[1] == PACKET_HEADER_SECOND
            &&& p[3] * 256 + p[2] == cmd.command_code()
            &&& le_value(p.subrange(4, 8)) == right_rpm_bits
            &&& le_value(p.subrange(8, 12)) == left_rpm_bits
        }),
{
    let p = pid_packet(cmd, right_rpm_bits, left_rpm_bits);
    lemma_le_bytes_roundtrip(right_rpm_bits);
    lemma_le_bytes_roundtrip(left_rpm_bits);
    assert(p.subrange(4, 8) =~= le_bytes(right_rpm_bits));
    assert(p.subrange(8, 12) =~= le_bytes(left_rpm_bits));
}

/// Decodes `bytes` as UTF-8 with `std::str::from_utf8`: the text they encode
/// where they are valid UTF-8, `None` where they are not.
#[verifier::external_body]
fn decode_utf8(bytes: &[u8]) -> (r: Option<String>)
    ensures
        match r {
            Some(s) => vstd::utf8::valid_utf8(bytes@) && s@ == vstd::utf8::decode_utf8(bytes@),
            None => !vstd::utf8::valid_utf8(bytes@),
        },
{
    match std::str::from_utf8(bytes) {
        Ok(text) => Some(text.to_string()),
        Err(_) => None,
    }
}

/// Whether every byte of `bytes` is an ASCII code (below 0x80).
pub open spec fn all_ascii(bytes: Seq<u8>) -> bool {
    forall|i: int| 0 <= i < bytes.len() ==> #[trigger] bytes[i] < 0x80
}

/// The characters whose codes are the bytes of `bytes`, one per byte.
pub open spec fn ascii_chars(bytes: Seq<u8>) -> Seq<char> {
    bytes.map_values(|b: u8| b as char)
}

/// ASCII bytes are valid UTF-8, and they decode to one character per byte,
/// the character with that byte's code.
pub proof fn lemma_ascii_decodes(bytes: Seq<u8>)
    requires
        all_ascii(bytes),
    ensures
        vstd::utf8::valid_utf8(bytes),
        vstd::utf8::decode_utf8(bytes) == ascii_chars(bytes),
        vstd::utf8::decode_utf8(bytes).len() == bytes.len(),
        forall|i: int|
            0 <= i < bytes.len() ==> (#[trigger] vstd::utf8::decode_utf8(bytes)[i]) as u32
                == bytes[i] as u32,
    decreases bytes.len(),
{
    if bytes.len() > 0 {
        let rest = bytes.drop_first();
        assert(bytes[0] < 0x80);
        assert(vstd::utf8::is_leading_byte_width_1(bytes[0]));
        assert(vstd::utf8::pop_first_scalar(bytes) =~= rest);
        assert(all_ascii(rest)) by {
            assert forall|i: int| 0 <= i < rest.len() implies #[trigger] rest[i] < 0x80 by {
                assert(rest[i] == bytes[i + 1]);
            }
        }
        lemma_ascii_decodes(rest);
        let b0 = bytes[0];
        assert(vstd::utf8::codepoint_width_1(b0) == b0 as u32) by (bit_vector)
            requires
                b0 < 0x80,
        ;
        assert(ascii_chars(bytes) =~= seq![bytes[0] as char] + ascii_chars(rest));
    }
}

/// An answer that is the UTF-8 encoding of some text is valid UTF-8 and is
/// read back as exactly that text, whatever characters (newlines included) it holds.
pub proof fn lemma_encoded_text_reads_back(text: Seq<char>)
    ensures
        vstd::utf8::valid_utf8(vstd::utf8::encode_utf8(text)),
        vstd::utf8::decode_utf8(vstd::utf8::encode_utf8(text)) == text,
{
    vstd::utf8::encode_utf8_valid_utf8(text);
    vstd::utf8::encode_utf8_decode_utf8(text);
}

/// Whether every byte of `bytes` is an ASCII code.
fn is_all_ascii(bytes: &Vec<u8>) -> (r: bool)
    ensures
        r == all_ascii(bytes@),
{
    let mut i: usize = 0;
    while i < bytes.len()
        invariant
            i <= bytes@.len(),
            forall|j: int| 0 <= j < i ==> #[trigger] bytes@[j] < 0x80,
        decreases bytes@.len() - i,
    {
        if bytes[i] >= 0x80 {
            return false;
        }
        i = i + 1;
    }
    true
}

/// The text of ASCII bytes, one character per byte.
fn ascii_text(bytes: &Vec<u8>) -> (s: String)
    requires
        all_ascii(bytes@),
    ensures
        s@ == ascii_chars(bytes@),
{
    let table: &str = "\u{0}\u{1}\u{2}\u{3}\u{4}\u{5}\u{6}\u{7}\u{8}\u{9}\u{a}\u{b}\u{c}\u{d}\u{e}\u{f}\u{10}\u{11}\u{12}\u{13}\u{14}\u{15}\u{16}\u{17}\u{18}\u{19}\u{1a}\u{1b}\u{1c}\u{1d}\u{1e}\u{1f}\u{20}\u{21}\u{22}\u{23}\u{24}\u{25}\u{26}\u{27}\u{28}\u{29}\u{2a}\u{2b}\u{2c}\u{2d}\u{2e}\u{2f}\u{30}\u{31}\u{32}\u{33}\u{34}\u{35}\u{36}\u{37}\u{38}\u{39}\u{3a}\u{3b}\u{3c}\u{3d}\u{3e}\u{3f}\u{40}\u{41}\u{42}\u{43}\u{44}\u{45}\u{46}\u{47}\u{48}\u{49}\u{4a}\u{4b}\u{4c}\u{4d}\u{4e}\u{4f}\u{50}\u{51}\u{52}\u{53}\u{54}\u{55}\u{56}\u{57}\u{58}\u{59}\u{5a}\u{5b}\u{5c}\u{5d}\u{5e}\u{5f}\u{60}\u{61}\u{62}\u{63}\u{64}\u{65}\u{66}\u{67}\u{68}\u{69}\u{6a}\u{6b}\u{6c}\u{6d}\u{6e}\u{6f}\u{70}\u{71}\u{72}\u{73}\u{74}\u{75}\u{76}\u{77}\u{78}\u{79}\u{7a}\u{7b}\u{7c}\u{7d}\u{7e}\u{7f}";
    proof {
        reveal_strlit("\u{0}\u{1}\u{2}\u{3}\u{4}\u{5}\u{6}\u{7}\u{8}\u{9}\u{a}\u{b}\u{c}\u{d}\u{e}\u{f}\u{10}\u{11}\u{12}\u{13}\u{14}\u{15}\u{16}\u{17}\u{18}\u{19}\u{1a}\u{1b}\u{1c}\u{1d}\u{1e}\u{1f}\u{20}\u{21}\u{22}\u{23}\u{24}\u{25}\u{26}\u{27}\u{28}\u{29}\u{2a}\u{2b}\u{2c}\u{2d}\u{2e}\u{2f}\u{30}\u{31}\u{32}\u{33}\u{34}\u{35}\u{36}\u{37}\u{38}\u{39}\u{3a}\u{3b}\u{3c}\u{3d}\u{3e}\u{3f}\u{40}\u{41}\u{42}\u{43}\u{44}\u{45}\u{46}\u{47}\u{48}\u{49}\u{4a}\u{4b}\u{4c}\u{4d}\u{4e}\u{4f}\u{50}\u{51}\u{52}\u{53}\u{54}\u{55}\u{56}\u{57}\u{58}\u{59}\u{5a}\u{5b}\u{5c}\u{5d}\u{5e}\u{5f}\u{60}\u{61}\u{62}\u{63}\u{64}\u{65}\u{66}\u{67}\u{68}\u{69}\u{6a}\u{6b}\u{6c}\u{6d}\u{6e}\u{6f}\u{70}\u{71}\u{72}\u{73}\u{74}\u{75}\u{76}\u{77}\u{78}\u{79}\u{7a}\u{7b}\u{7c}\u{7d}\u{7e}\u{7f}");
    }
    assert(table@.len() == 128);
    assert(forall|k: int| 0 <= k < 128 ==> (#[trigger] table@[k]) as u32 == k);
    proof {
        vstd::utf8::is_ascii_chars_encode_utf8(table@);
    }
    assert(table.spec_bytes().len() == 128);
    assert forall|k: int| 0 <= k < 128 implies #[trigger] table.spec_bytes()[k] == k by {
        assert(table@[k] as u32 == k);
        assert(table@[k] as u8 == table.spec_bytes()[k]);
    }
    let mut out = String::new();
    let mut i: usize = 0;
    while i < bytes.len()
        invariant
            i <= bytes@.len(),
            all_ascii(bytes@),
            out@ == ascii_chars(bytes@.take(i as int)),
            table.spec_bytes().len() == 128,
            forall|k: int| 0 <= k < 128 ==> #[trigger] table.spec_bytes()[k] == k,
        decreases bytes@.len() - i,
    {
        let b = bytes[i];
        assert(b < 0x80);
        let ghost table_bytes = table.spec_bytes();
        assert(table_bytes[b as int] == b);
        proof {
            vstd::utf8::encode_utf8_valid_utf8(table@);
            vstd::utf8::is_char_boundary_iff_not_is_continuation_byte(table_bytes, b as int);
        }
        let (_, rest) = table.split_at(b as usize);
        let ghost rest_bytes = rest.spec_bytes();
        assert(rest_bytes[0] == b);
        proof {
            vstd::utf8::encode_utf8_valid_utf8(rest@);
            vstd::utf8::is_char_boundary_start_end_of_seq(rest_bytes);
            if rest_bytes.len() > 1 {
                assert(rest_bytes[1] == table_bytes[b + 1]);
                vstd::utf8::is_char_boundary_iff_not_is_continuation_byte(rest_bytes, 1);
            }
        }
        let (one, _) = rest.split_at(1);
        assert(one.spec_bytes() =~= seq![b]);
        proof {
            vstd::utf8::encode_utf8_decode_utf8(one@);
            lemma_ascii_decodes(seq![b]);
            assert(ascii_chars(seq![b]) =~= seq![b as char]);
        }
        out.append(one);
        i = i + 1;
        assert(ascii_chars(bytes@.take(i as int)) =~= ascii_chars(bytes@.take(i - 1)).push(b as char));
    }
    assert(bytes@.take(bytes@.len() as int) =~= bytes@);
    out
}

/// The length of the UTF-8 encoding of one scalar that starts at `bytes[i]`,
/// or 0 where no well-formed encoding of a scalar starts there.
fn first_scalar_len(bytes: &Vec<u8>, i: usize) -> (r: usize)
    requires
        i < bytes@.len(),
    ensures
        r == 0 <==> !vstd::utf8::valid_first_scalar(bytes@.skip(i as int)),
        r != 0 ==> r == vstd::utf8::length_of_first_scalar(bytes@.skip(i as int)) && 1 <= r <= 4,
{
    let ghost s = bytes@.skip(i as int);
    let len = bytes.len();
    let b0 = bytes[i];
    assert(s[0] == b0);
    if b0 <= 0x7f {
        let cp: u32 = (b0 & 0x7F) as u32;
        assert(cp == vstd::utf8::decode_first_codepoint(s));
        assert((b0 & 0x7F) as u32 <= 0x7f) by (bit_vector);
        1
    } else if 0xc0 <= b0 && b0 <= 0xdf {
        if len - i <= 1 {
            return 0;
        }
        let b1 = bytes[i + 1];
        assert(s[1] == b1);
        if !(0x80 <= b1 && b1 <= 0xbf) {
            return 0;
        }
        let cp: u32 = (((b0 & 0x1F) as u32) << 6) | ((b1 & 0x3f) as u32);
        assert(cp == vstd::utf8::decode_first_codepoint(s));
        if cp < 0x80 || (0xD800 <= cp && cp <= 0xDFFF) {
            0
        } else {
            2
        }
    } else if 0xe0 <= b0 && b0 <= 0xef {
        if len - i <= 2 {
            return 0;
        }
        let b1 = bytes[i + 1];
        let b2 = bytes[i + 2];
        assert(s[1] == b1 && s[2] == b2);
        if !(0x80 <= b1 && b1 <= 0xbf && 0x80 <= b2 && b2 <= 0xbf) {
            return 0;
        }
        let cp: u32 = (((b0 & 0x0F) as u32) << 12) | (((b1 & 0x3f) as u32) << 6) | ((b2
            & 0x3f) as u32);
        assert(cp == vstd::utf8::decode_first_codepoint(s));
        if cp < 0x800 || (0xD800 <= cp && cp <= 0xDFFF) {
            0
        } else {
            3
        }
    } else if 0xf0 <= b0 && b0 <= 0xf7 {
        if len - i <= 3 {
            return 0;
        }
        let b1 = bytes[i + 1];
        let b2 = bytes[i + 2];
        let b3 = bytes[i + 3];
        assert(s[1] == b1 && s[2] == b2 && s[3] == b3);
        if !(0x80 <= b1 && b1 <= 0xbf && 0x80 <= b2 && b2 <= 0xbf && 0x80 <= b3 && b3 <= 0xbf) {
            return 0;
        }
        let cp: u32 = (((b0 & 0x07) as u32) << 18) | (((b1 & 0x3f) as u32) << 12) | (((b2
            & 0x3f) as u32) << 6) | ((b3 & 0x3f) as u32);
        assert(cp == vstd::utf8::decode_first_codepoint(s));
        if cp < 0x10000 || cp > 0x10ffff || (0xD800 <= cp && cp <= 0xDFFF) {
            0
        } else {
            4
        }
    } else {
        0
    }
}

/// Whether `bytes` are valid UTF-8.
fn utf8_is_valid(bytes: &Vec<u8>) -> (r: bool)
    ensures
        r == vstd::utf8::valid_utf8(bytes@),
{
    let mut i: usize = 0;
    assert(bytes@.skip(0) =~= bytes@);
    while i < bytes.len()
        invariant
            i <= bytes@.len(),
            vstd::utf8::valid_utf8(bytes@) == vstd::utf8::valid_utf8(bytes@.skip(i as int)),
        decreases bytes@.len() - i,
    {
        let ghost s = bytes@.skip(i as int);
        let k = first_scalar_len(bytes, i);
        if k == 0 {
            return false;
        }
        assert(vstd::utf8::pop_first_scalar(s) =~= bytes@.skip(i + k));
        i = i + k;
    }
    assert(bytes@.skip(i as int) =~= Seq::<u8>::empty());
    true
}

/// What the PID controller answered to a packet.
pub enum PidReply {
    /// The answer was readable text.
    Text(String),
    /// The answer was not valid UTF-8.
    Unreadable,
}

/// The line shown when an answer cannot be read.
pub open spec fn unreadable_notice() -> Seq<char> {
    "[software] failed to parse bytes\n"@
}

impl PidReply {
    /// The reply for the outcome of decoding the controller's answer.
    pub fn from_decoded(decoded: Option<String>) -> (r: PidReply)
        ensures
            match decoded {
                Some(s) => r == PidReply::Text(s),
                None => r is Unreadable,
            },
    {
        match decoded {
            Some(s) => PidReply::Text(s),
            None => PidReply::Unreadable,
        }
    }

    /// What is shown for the reply: the text itself, or a notice ending in a newline.
    pub fn display_text(&self) -> (out: String)
        ensures
            match self {
                PidReply::Text(s) => out@ == s@,
                PidReply::Unreadable => out@ == unreadable_notice(),
            },
    {
        match self {
            PidReply::Text(s) => s.clone(),
            PidReply::Unreadable => "[software] failed to parse bytes\n".to_string(),
        }
    }
}

/// Interprets the first `n` bytes of `buf`, the bytes that a read of the
/// controller's answer returned, as UTF-8 text.
pub fn decode_reply(buf: &[u8], n: usize) -> (r: PidReply)
    requires
        n <= buf@.len(),
    ensures
        match r {
            PidReply::Text(s) => vstd::utf8::valid_utf8(buf@.take(n as int)) && s@
                == vstd::utf8::decode_utf8(buf@.take(n as int)),
            PidReply::Unreadable => !vstd::utf8::valid_utf8(buf@.take(n as int)),
        },
        all_ascii(buf@.take(n as int)) ==> (r matches PidReply::Text(s) && s@ == ascii_chars(
            buf@.take(n as int),
        )),
{
    let mut head: Vec<u8> = Vec::with_capacity(n);
    let mut i: usize = 0;
    while i < n
        invariant
            n <= buf@.len(),
            i <= n,
            head@ == buf@.take(i as int),
        decreases n - i,
    {
        head.push(buf[i]);
        i = i + 1;
        assert(head@ =~= buf@.take(i as int));
    }
    if is_all_ascii(&head) {
        proof {
            lemma_ascii_decodes(head@);
        }
        PidReply::Text(ascii_text(&head))
    } else if !utf8_is_valid(&head) {
        PidReply::Unreadable
    } else {
        PidReply::from_decoded(decode_utf8(head.as_slice()))
    }
}

} // verus!
