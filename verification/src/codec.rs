//! The wire codec: newline-delimited JSON messages, over bytes.
//!
//! Outbound server events are encoded as one JSON object per line. Inbound
//! lines are decoded into registrations and client requests: one JSON object
//! each, with blanks between tokens skipped, the members of each object taken
//! in any order and each at most once, and strings carrying both plain UTF-8
//! and escapes, `\uXXXX` included (surrogates only in pairs). A member
//! unknown to this version refuses the line, and the decoder answers `None`
//! for any line it does not accept.

use vstd::prelude::*;
use vstd::string::StringSliceAdditionalSpecFns;
use vstd::string::StrSliceExecFns;
use vstd::utf8::{decode_utf8, encode_utf8, valid_utf8};

use crate::choices::{has_key, keys_of, keys_sorted, ChoiceKey, ChoiceSet, ClientRequest};
use crate::types::{
    spec_default_mask, spec_empty_mask, spec_with_flag, ArcStr, Choice, Matcher, Registration,
    ServerEvent, SubscriptionMask,
};

verus! {

/// Whether byte `b` stands at position `i`.
pub open spec fn at(s: Seq<u8>, i: int, b: u8) -> bool {
    0 <= i < s.len() && s[i] == b
}

/// A decimal numeral, most significant digit first.
pub open spec fn dec_digits(n: nat) -> Seq<u8>
    decreases n,
{
    if n < 10 {
        seq![(48 + n) as u8]
    } else {
        dec_digits(n / 10).push((48 + (n % 10)) as u8)
    }
}

/// Append the decimal numeral of `n`.
fn push_dec(out: &mut Vec<u8>, n: u64)
    ensures
        final(out)@ == old(out)@ + dec_digits(n as nat),
    decreases n,
{
    if n < 10 {
        out.push(48 + (n as u8));
        proof {
            assert(final(out)@ =~= old(out)@ + dec_digits(n as nat));
        }
    } else {
        assert(n / 10 < n) by (nonlinear_arith)
            requires
                n >= 10,
        ;
        push_dec(out, n / 10);
        out.push(48 + ((n % 10) as u8));
        proof {
            assert(final(out)@ =~= old(out)@ + dec_digits(n as nat));
        }
    }
}

/// The ASCII hex digit of a value below sixteen.
pub open spec fn hex_digit(n: u8) -> u8 {
    if n < 10 {
        (48 + n) as u8
    } else {
        (87 + n) as u8
    }
}

/// How one byte of text stands inside a JSON string: itself, a two-byte
/// escape, or a numeric escape for the remaining control bytes.
pub open spec fn esc_byte(b: u8) -> Seq<u8> {
    if b == 34 {
        seq![92u8, 34u8]
    } else if b == 92 {
        seq![92u8, 92u8]
    } else if b == 8 {
        seq![92u8, 98u8]
    } else if b == 12 {
        seq![92u8, 102u8]
    } else if b == 10 {
        seq![92u8, 110u8]
    } else if b == 13 {
        seq![92u8, 114u8]
    } else if b == 9 {
        seq![92u8, 116u8]
    } else if b < 32 {
        seq![92u8, 117u8, 48u8, 48u8, hex_digit(b / 16), hex_digit(b % 16)]
    } else {
        seq![b]
    }
}

/// A whole text, escaped for the inside of a JSON string.
pub open spec fn json_escape(s: Seq<u8>) -> Seq<u8>
    decreases s.len(),
{
    if s.len() == 0 {
        Seq::empty()
    } else {
        esc_byte(s[0]) + json_escape(s.drop_first())
    }
}

/// Escaping works byte by byte off the front or the back alike.
proof fn lemma_json_escape_push(s: Seq<u8>, b: u8)
    ensures
        json_escape(s.push(b)) =~= json_escape(s) + esc_byte(b),
    decreases s.len(),
{
    let all = s.push(b);
    if s.len() == 0 {
        assert(all[0] == b);
        assert(all.drop_first() =~= Seq::<u8>::empty());
        assert(json_escape(all) =~= esc_byte(b) + json_escape(Seq::empty()));
    } else {
        assert(all[0] == s[0]);
        assert(all.drop_first() =~= s.drop_first().push(b));
        lemma_json_escape_push(s.drop_first(), b);
        assert(json_escape(all) == esc_byte(s[0]) + json_escape(s.drop_first().push(b)));
        assert(esc_byte(s[0]) + (json_escape(s.drop_first()) + esc_byte(b)) =~= (esc_byte(s[0])
            + json_escape(s.drop_first())) + esc_byte(b));
    }
}

/// Append one byte of text in its escaped form.
fn push_escaped_byte(out: &mut Vec<u8>, b: u8)
    ensures
        final(out)@ == old(out)@ + esc_byte(b),
{
    if b == 34 {
        out.push(92);
        out.push(34);
    } else if b == 92 {
        out.push(92);
        out.push(92);
    } else if b == 8 {
        out.push(92);
        out.push(98);
    } else if b == 12 {
        out.push(92);
        out.push(102);
    } else if b == 10 {
        out.push(92);
        out.push(110);
    } else if b == 13 {
        out.push(92);
        out.push(114);
    } else if b == 9 {
        out.push(92);
        out.push(116);
    } else if b < 32 {
        out.push(92);
        out.push(117);
        out.push(48);
        out.push(48);
        let hi: u8 = b / 16;
        let lo: u8 = b % 16;
        out.push(if hi < 10 { 48 + hi } else { 87 + hi });
        out.push(if lo < 10 { 48 + lo } else { 87 + lo });
    } else {
        out.push(b);
    }
    proof {
        assert(final(out)@ =~= old(out)@ + esc_byte(b));
    }
}

/// Append a whole text, escaped, between double quotes.
fn push_json_string(out: &mut Vec<u8>, text: &str)
    ensures
        final(out)@ == old(out)@ + seq![34u8] + json_escape(text.spec_bytes()) + seq![34u8],
{
    let bytes: Vec<u8> = text.as_bytes_vec();
    out.push(34);
    let ghost mid = out@;
    let n: usize = bytes.len();
    let mut i: usize = 0;
    loop
        invariant
            i <= n,
            n == bytes@.len(),
            bytes@ == text.spec_bytes(),
            out@ == mid + json_escape(bytes@.take(i as int)),
        ensures
            out@ == mid + json_escape(bytes@),
        decreases n - i,
    {
        if i == n {
            proof {
                assert(bytes@.take(i as int) =~= bytes@);
            }
            break;
        }
        push_escaped_byte(out, bytes[i]);
        proof {
            assert(bytes@.take(i + 1) =~= bytes@.take(i as int).push(bytes@[i as int]));
            lemma_json_escape_push(bytes@.take(i as int), bytes@[i as int]);
            assert((mid + json_escape(bytes@.take(i as int))) + esc_byte(bytes@[i as int]) =~= mid
                + json_escape(bytes@.take(i + 1)));
        }
        i = i + 1;
    }
    out.push(34);
    proof {
        assert(final(out)@ =~= old(out)@ + seq![34u8] + json_escape(text.spec_bytes())
            + seq![34u8]);
    }
}

/// The names keying each outbound message.
pub open spec fn name_busy() -> Seq<u8> {
    seq![98u8, 117u8, 115u8, 121u8]
}

pub open spec fn name_registered() -> Seq<u8> {
    seq![114u8, 101u8, 103u8, 105u8, 115u8, 116u8, 101u8, 114u8, 101u8, 100u8]
}

pub open spec fn name_server_too_old() -> Seq<u8> {
    seq![115u8, 101u8, 114u8, 118u8, 101u8, 114u8, 95u8, 116u8, 111u8, 111u8, 95u8, 111u8, 108u8, 100u8]
}

pub open spec fn name_select() -> Seq<u8> {
    seq![115u8, 101u8, 108u8, 101u8, 99u8, 116u8]
}

pub open spec fn name_cursor_move() -> Seq<u8> {
    seq![99u8, 117u8, 114u8, 115u8, 111u8, 114u8, 95u8, 109u8, 111u8, 118u8, 101u8]
}

pub open spec fn name_input_change() -> Seq<u8> {
    seq![105u8, 110u8, 112u8, 117u8, 116u8, 95u8, 99u8, 104u8, 97u8, 110u8, 103u8, 101u8]
}

pub open spec fn name_window_closed() -> Seq<u8> {
    seq![119u8, 105u8, 110u8, 100u8, 111u8, 119u8, 95u8, 99u8, 108u8, 111u8, 115u8, 101u8, 100u8]
}

/// The key naming each outbound message.
pub open spec fn key_name(e: ServerEvent) -> Seq<u8> {
    match e {
        ServerEvent::Busy => name_busy(),
        ServerEvent::Registered(_) => name_registered(),
        ServerEvent::ServerTooOld(_) => name_server_too_old(),
        ServerEvent::Select(_) => name_select(),
        ServerEvent::CursorMove(_) => name_cursor_move(),
        ServerEvent::InputChange(_) => name_input_change(),
        ServerEvent::WindowClosed => name_window_closed(),
    }
}

/// The leader of every data member: `,"data":`.
pub open spec fn data_prefix() -> Seq<u8> {
    seq![44u8, 34u8, 100u8, 97u8, 116u8, 97u8, 34u8, 58u8]
}

/// The payload member of each outbound message, empty where the message
/// carries none.
pub open spec fn data_part(e: ServerEvent) -> Seq<u8> {
    match e {
        ServerEvent::Busy => Seq::empty(),
        ServerEvent::WindowClosed => Seq::empty(),
        ServerEvent::Registered(n) => data_prefix() + dec_digits(n as nat),
        ServerEvent::ServerTooOld(v) => data_prefix() + dec_digits(v as nat),
        ServerEvent::CursorMove(n) => data_prefix() + dec_digits(n as nat),
        ServerEvent::Select(sel) => match sel {
            Some(n) => data_prefix() + dec_digits(n as nat),
            None => data_prefix() + seq![110u8, 117u8, 108u8, 108u8],
        },
        ServerEvent::InputChange(text) => data_prefix() + seq![34u8] + json_escape(
            vstd::utf8::encode_utf8(text@),
        ) + seq![34u8],
    }
}

/// One whole outbound line: `{"key":"<name>"<data>}` and a newline.
pub open spec fn spec_encode_server_event(e: ServerEvent) -> Seq<u8> {
    seq![123u8, 34u8, 107u8, 101u8, 121u8, 34u8, 58u8, 34u8] + key_name(e) + seq![34u8]
        + data_part(e) + seq![125u8, 10u8]
}

/// Encode one server event as its newline-terminated JSON line.
pub fn encode_server_event(e: &ServerEvent) -> (r: Vec<u8>)
    ensures
        r@ == spec_encode_server_event(*e),
{
    let mut out: Vec<u8> = Vec::new();
    out.push(123);
    out.push(34);
    out.push(107);
    out.push(101);
    out.push(121);
    out.push(34);
    out.push(58);
    out.push(34);
    match e {
        ServerEvent::Busy => {
            push_bytes_busy(&mut out);
            out.push(34);
        },
        ServerEvent::Registered(n) => {
            push_bytes_registered(&mut out);
            out.push(34);
            push_data_prefix(&mut out);
            push_dec(&mut out, *n as u64);
        },
        ServerEvent::ServerTooOld(v) => {
            push_bytes_server_too_old(&mut out);
            out.push(34);
            push_data_prefix(&mut out);
            push_dec(&mut out, *v as u64);
        },
        ServerEvent::Select(sel) => {
            push_bytes_select(&mut out);
            out.push(34);
            push_data_prefix(&mut out);
            match sel {
                Some(n) => push_dec(&mut out, *n as u64),
                None => {
                    out.push(110);
                    out.push(117);
                    out.push(108);
                    out.push(108);
                },
            }
        },
        ServerEvent::CursorMove(n) => {
            push_bytes_cursor_move(&mut out);
            out.push(34);
            push_data_prefix(&mut out);
            push_dec(&mut out, *n as u64);
        },
        ServerEvent::InputChange(text) => {
            push_bytes_input_change(&mut out);
            out.push(34);
            push_data_prefix(&mut out);
            push_json_string(&mut out, text.as_str());
        },
        ServerEvent::WindowClosed => {
            push_bytes_window_closed(&mut out);
            out.push(34);
        },
    }
    out.push(125);
    out.push(10);
    proof {
        assert(out@ =~= spec_encode_server_event(*e));
    }
    out
}

fn push_data_prefix(out: &mut Vec<u8>)
    ensures
        final(out)@ == old(out)@ + data_prefix(),
{
    out.push(44);
    out.push(34);
    out.push(100);
    out.push(97);
    out.push(116);
    out.push(97);
    out.push(34);
    out.push(58);
    proof {
        assert(final(out)@ =~= old(out)@ + data_prefix());
    }
}

fn push_bytes_busy(out: &mut Vec<u8>)
    ensures
        final(out)@ == old(out)@ + name_busy(),
{
    out.push(98);
    out.push(117);
    out.push(115);
    out.push(121);
    proof {
        assert(final(out)@ =~= old(out)@ + name_busy());
    }
}

fn push_bytes_registered(out: &mut Vec<u8>)
    ensures
        final(out)@ == old(out)@ + name_registered(),
{
    out.push(114);
    out.push(101);
    out.push(103);
    out.push(105);
    out.push(115);
    out.push(116);
    out.push(101);
    out.push(114);
    out.push(101);
    out.push(100);
    proof {
        assert(final(out)@ =~= old(out)@ + name_registered());
    }
}

fn push_bytes_server_too_old(out: &mut Vec<u8>)
    ensures
        final(out)@ == old(out)@ + name_server_too_old(),
{
    out.push(115);
    out.push(101);
    out.push(114);
    out.push(118);
    out.push(101);
    out.push(114);
    out.push(95);
    out.push(116);
    out.push(111);
    out.push(111);
    out.push(95);
    out.push(111);
    out.push(108);
    out.push(100);
    proof {
        assert(final(out)@ =~= old(out)@ + name_server_too_old());
    }
}

fn push_bytes_select(out: &mut Vec<u8>)
    ensures
        final(out)@ == old(out)@ + name_select(),
{
    out.push(115);
    out.push(101);
    out.push(108);
    out.push(101);
    out.push(99);
    out.push(116);
    proof {
        assert(final(out)@ =~= old(out)@ + name_select());
    }
}

fn push_bytes_cursor_move(out: &mut Vec<u8>)
    ensures
        final(out)@ == old(out)@ + name_cursor_move(),
{
    out.push(99);
    out.push(117);
    out.push(114);
    out.push(115);
    out.push(111);
    out.push(114);
    out.push(95);
    out.push(109);
    out.push(111);
    out.push(118);
    out.push(101);
    proof {
        assert(final(out)@ =~= old(out)@ + name_cursor_move());
    }
}

fn push_bytes_input_change(out: &mut Vec<u8>)
    ensures
        final(out)@ == old(out)@ + name_input_change(),
{
    out.push(105);
    out.push(110);
    out.push(112);
    out.push(117);
    out.push(116);
    out.push(95);
    out.push(99);
    out.push(104);
    out.push(97);
    out.push(110);
    out.push(103);
    out.push(101);
    proof {
        assert(final(out)@ =~= old(out)@ + name_input_change());
    }
}

fn push_bytes_window_closed(out: &mut Vec<u8>)
    ensures
        final(out)@ == old(out)@ + name_window_closed(),
{
    out.push(119);
    out.push(105);
    out.push(110);
    out.push(100);
    out.push(111);
    out.push(119);
    out.push(95);
    out.push(99);
    out.push(108);
    out.push(111);
    out.push(115);
    out.push(101);
    out.push(100);
    proof {
        assert(final(out)@ =~= old(out)@ + name_window_closed());
    }
}

/// Insignificant blank bytes between tokens: space, tab, line and carriage
/// returns.
pub open spec fn is_ws_byte(b: u8) -> bool {
    b == 32 || b == 9 || b == 10 || b == 13
}

/// The position of the next non-blank byte at or after `i`.
pub open spec fn spec_ws(s: Seq<u8>, i: int) -> int
    decreases s.len() - i,
{
    if 0 <= i < s.len() && is_ws_byte(s[i]) {
        spec_ws(s, i + 1)
    } else {
        i
    }
}

proof fn lemma_ws_bounds(s: Seq<u8>, i: int)
    requires
        0 <= i <= s.len(),
    ensures
        i <= spec_ws(s, i) <= s.len(),
    decreases s.len() - i,
{
    if i < s.len() && is_ws_byte(s[i]) {
        lemma_ws_bounds(s, i + 1);
    }
}

/// Step past insignificant blanks.
fn skip_ws(s: &Vec<u8>, i: usize) -> (r: usize)
    requires
        i <= s@.len(),
    ensures
        r as int == spec_ws(s@, i as int),
        i <= r <= s@.len(),
{
    let n: usize = s.len();
    let mut cur: usize = i;
    loop
        invariant
            i <= cur <= n,
            n == s@.len(),
            spec_ws(s@, i as int) == spec_ws(s@, cur as int),
        ensures
            cur as int == spec_ws(s@, i as int),
            i <= cur <= n,
        decreases n - cur,
    {
        if cur < n {
            let b: u8 = s[cur];
            if b == 32 || b == 9 || b == 10 || b == 13 {
                cur = cur + 1;
                continue;
            }
        }
        break;
    }
    cur
}

/// What a simple escape sequence stands for: the byte after the backslash
/// maps to the escaped byte, or to nothing when the escape is unknown.
pub open spec fn spec_esc_char(b: u8) -> Option<u8> {
    if b == 34 {
        Some(34u8)
    } else if b == 92 {
        Some(92u8)
    } else if b == 47 {
        Some(47u8)
    } else if b == 98 {
        Some(8u8)
    } else if b == 102 {
        Some(12u8)
    } else if b == 110 {
        Some(10u8)
    } else if b == 114 {
        Some(13u8)
    } else if b == 116 {
        Some(9u8)
    } else {
        None
    }
}

/// The value of one hex digit, upper or lower case.
pub open spec fn spec_hex_val(b: u8) -> Option<u32> {
    if 48 <= b <= 57 {
        Some((b - 48) as u32)
    } else if 97 <= b <= 102 {
        Some((b - 87) as u32)
    } else if 65 <= b <= 70 {
        Some((b - 55) as u32)
    } else {
        None
    }
}

/// The value of the four hex digits at position `i`.
pub open spec fn spec_hex4(s: Seq<u8>, i: int) -> Option<u32> {
    if 0 <= i && i + 4 <= s.len() {
        match spec_hex_val(s[i]) {
            Some(a) => match spec_hex_val(s[i + 1]) {
                Some(b) => match spec_hex_val(s[i + 2]) {
                    Some(c) => match spec_hex_val(s[i + 3]) {
                        Some(d) => Some((a * 4096 + b * 256 + c * 16 + d) as u32),
                        None => None,
                    },
                    None => None,
                },
                None => None,
            },
            None => None,
        }
    } else {
        None
    }
}

fn hex_val(b: u8) -> (r: Option<u32>)
    ensures
        r == spec_hex_val(b),
{
    if 48 <= b && b <= 57 {
        Some((b - 48) as u32)
    } else if 97 <= b && b <= 102 {
        Some((b - 87) as u32)
    } else if 65 <= b && b <= 70 {
        Some((b - 55) as u32)
    } else {
        None
    }
}

fn read_hex4(s: &Vec<u8>, i: usize) -> (r: Option<u32>)
    requires
        i <= s@.len(),
    ensures
        r == spec_hex4(s@, i as int),
        r is Some ==> i + 4 <= s@.len() && r.unwrap() < 0x10000,
{
    let n: usize = s.len();
    if n - i < 4 {
        return None;
    }
    let a = match hex_val(s[i]) {
        Some(v) => v,
        None => {
            return None;
        },
    };
    let b = match hex_val(s[i + 1]) {
        Some(v) => v,
        None => {
            return None;
        },
    };
    let c = match hex_val(s[i + 2]) {
        Some(v) => v,
        None => {
            return None;
        },
    };
    let d = match hex_val(s[i + 3]) {
        Some(v) => v,
        None => {
            return None;
        },
    };
    Some(a * 4096 + b * 256 + c * 16 + d)
}

/// Append the UTF-8 encoding of one Unicode scalar.
fn push_scalar_utf8(acc: &mut Vec<u8>, v: u32)
    requires
        vstd::utf8::is_scalar(v),
    ensures
        final(acc)@ == old(acc)@ + vstd::utf8::encode_scalar(v),
{
    if v <= 0x7F {
        proof {
            assert((v & 0x7F) as u8 == v as u8) by (bit_vector)
                requires
                    v <= 0x7F,
            ;
        }
        acc.push(v as u8);
        proof {
            assert(final(acc)@ =~= old(acc)@ + vstd::utf8::encode_scalar(v));
        }
    } else if v <= 0x7FF {
        proof {
            assert(v / 64 <= 31 && v % 64 <= 63) by (bit_vector)
                requires
                    v <= 0x7FF,
            ;
            assert((0xC0 + v / 64) as u8 == (0xC0u8 | (((v >> 6) & 0x1F) as u8))) by (bit_vector)
                requires
                    0x80 <= v <= 0x7FF,
            ;
            assert((0x80 + v % 64) as u8 == (0x80u8 | ((v & 0x3F) as u8))) by (bit_vector);
        }
        acc.push((0xC0 + v / 64) as u8);
        acc.push((0x80 + v % 64) as u8);
        proof {
            assert(final(acc)@ =~= old(acc)@ + vstd::utf8::encode_scalar(v));
        }
    } else if v <= 0xFFFF {
        proof {
            assert(v / 4096 <= 15 && (v / 64) % 64 <= 63 && v % 64 <= 63) by (bit_vector)
                requires
                    v <= 0xFFFF,
            ;
            assert((0xE0 + v / 4096) as u8 == (0xE0u8 | (((v >> 12) & 0x0F) as u8))) by (bit_vector)
                requires
                    v <= 0xFFFF,
            ;
            assert((0x80 + (v / 64) % 64) as u8 == (0x80u8 | (((v >> 6) & 0x3F) as u8))) by (bit_vector);
            assert((0x80 + v % 64) as u8 == (0x80u8 | ((v & 0x3F) as u8))) by (bit_vector);
        }
        acc.push((0xE0 + v / 4096) as u8);
        acc.push((0x80 + (v / 64) % 64) as u8);
        acc.push((0x80 + v % 64) as u8);
        proof {
            assert(final(acc)@ =~= old(acc)@ + vstd::utf8::encode_scalar(v));
        }
    } else {
        proof {
            assert(v / 262144 <= 7 && (v / 4096) % 64 <= 63 && (v / 64) % 64 <= 63 && v % 64
                <= 63) by (bit_vector)
                requires
                    v <= 0x10FFFF,
            ;
            assert((0xF0 + v / 262144) as u8 == (0xF0u8 | (((v >> 18) & 0x7) as u8))) by (bit_vector)
                requires
                    v <= 0x10FFFF,
            ;
            assert((0x80 + (v / 4096) % 64) as u8 == (0x80u8 | (((v >> 12) & 0x3F) as u8)))
                by (bit_vector);
            assert((0x80 + (v / 64) % 64) as u8 == (0x80u8 | (((v >> 6) & 0x3F) as u8)))
                by (bit_vector);
            assert((0x80 + v % 64) as u8 == (0x80u8 | ((v & 0x3F) as u8))) by (bit_vector);
        }
        acc.push((0xF0 + v / 262144) as u8);
        acc.push((0x80 + (v / 4096) % 64) as u8);
        acc.push((0x80 + (v / 64) % 64) as u8);
        acc.push((0x80 + v % 64) as u8);
        proof {
            assert(final(acc)@ =~= old(acc)@ + vstd::utf8::encode_scalar(v));
        }
    }
}

/// The body of a JSON string from position `i` (just past the opening
/// quote): its unescaped bytes and the position past the closing quote.
/// Raw control bytes and unknown escapes are refused; `\uXXXX` escapes
/// contribute the UTF-8 bytes of their scalar, surrogates only in pairs.
pub open spec fn spec_str_body(s: Seq<u8>, i: int) -> Option<(Seq<u8>, int)>
    decreases s.len() - i,
{
    if !(0 <= i < s.len()) {
        None
    } else if s[i] == 34 {
        Some((Seq::empty(), i + 1))
    } else if s[i] == 92 {
        if at(s, i + 1, 117) {
            match spec_hex4(s, i + 2) {
                Some(c) => if 0xD800 <= c < 0xDC00 {
                    if at(s, i + 6, 92) && at(s, i + 7, 117) {
                        match spec_hex4(s, i + 8) {
                            Some(c2) => if 0xDC00 <= c2 < 0xE000 {
                                match spec_str_body(s, i + 12) {
                                    Some((rest, j)) => Some(
                                        (
                                            vstd::utf8::encode_scalar(
                                                (0x10000 + (c - 0xD800) * 0x400 + (c2
                                                    - 0xDC00)) as u32,
                                            ) + rest,
                                            j,
                                        ),
                                    ),
                                    None => None,
                                }
                            } else {
                                None
                            },
                            None => None,
                        }
                    } else {
                        None
                    }
                } else if 0xDC00 <= c < 0xE000 {
                    None
                } else {
                    match spec_str_body(s, i + 6) {
                        Some((rest, j)) => Some((vstd::utf8::encode_scalar(c) + rest, j)),
                        None => None,
                    }
                },
                None => None,
            }
        } else if i + 1 < s.len() {
            match spec_esc_char(s[i + 1]) {
                Some(c) => match spec_str_body(s, i + 2) {
                    Some((rest, j)) => Some((seq![c] + rest, j)),
                    None => None,
                },
                None => None,
            }
        } else {
            None
        }
    } else if s[i] < 32 {
        None
    } else {
        match spec_str_body(s, i + 1) {
            Some((rest, j)) => Some((seq![s[i]] + rest, j)),
            None => None,
        }
    }
}

/// A whole JSON string at position `i`, quotes included.
pub open spec fn spec_parse_string(s: Seq<u8>, i: int) -> Option<(Seq<u8>, int)> {
    if at(s, i, 34) {
        spec_str_body(s, i + 1)
    } else {
        None
    }
}

/// A parsed string ends after where it starts and within the input.
proof fn lemma_str_body_bounds(s: Seq<u8>, i: int)
    requires
        spec_str_body(s, i) is Some,
    ensures
        i < spec_str_body(s, i).unwrap().1 <= s.len(),
    decreases s.len() - i,
{
    if s[i] == 34 {
    } else if s[i] == 92 {
        if at(s, i + 1, 117) {
            let c = spec_hex4(s, i + 2).unwrap();
            if 0xD800 <= c < 0xDC00 {
                lemma_str_body_bounds(s, i + 12);
            } else {
                lemma_str_body_bounds(s, i + 6);
            }
        } else {
            lemma_str_body_bounds(s, i + 2);
        }
    } else {
        lemma_str_body_bounds(s, i + 1);
    }
}

/// Parse a JSON string at position `i`: the unescaped content and the
/// position just past the closing quote.
#[verifier::rlimit(100)]
fn parse_string(s: &Vec<u8>, i: usize) -> (r: Option<(Vec<u8>, usize)>)
    requires
        i <= s@.len(),
    ensures
        match r {
            Some(p) => {
                &&& spec_parse_string(s@, i as int) == Some((p.0@, p.1 as int))
                &&& i < p.1 <= s@.len()
            },
            None => spec_parse_string(s@, i as int) is None,
        },
{
    let n: usize = s.len();
    if i >= n || s[i] != 34 {
        return None;
    }
    let start: usize = i + 1;
    let mut cur: usize = start;
    let mut acc: Vec<u8> = Vec::new();
    loop
        invariant
            start == i + 1,
            at(s@, i as int, 34),
            start <= cur <= n,
            n == s@.len(),
            spec_str_body(s@, start as int) == (match spec_str_body(s@, cur as int) {
                Some((rest, j)) => Some((acc@ + rest, j)),
                None => None::<(Seq<u8>, int)>,
            }),
        decreases n - cur,
    {
        if cur >= n {
            return None;
        }
        let b: u8 = s[cur];
        if b == 34 {
            proof {
                assert(acc@ + Seq::<u8>::empty() =~= acc@);
                lemma_str_body_bounds(s@, start as int);
            }
            return Some((acc, cur + 1));
        }
        if b == 92 {
            if cur + 1 >= n {
                return None;
            }
            let e: u8 = s[cur + 1];
            if e == 117 {
                let c: u32 = match read_hex4(s, cur + 2) {
                    Some(c) => c,
                    None => {
                        return None;
                    },
                };
                if 0xD800 <= c && c < 0xDC00 {
                    if !(n - cur >= 8 && s[cur + 6] == 92 && s[cur + 7] == 117) {
                        return None;
                    }
                    let c2: u32 = match read_hex4(s, cur + 8) {
                        Some(c2) => c2,
                        None => {
                            return None;
                        },
                    };
                    if !(0xDC00 <= c2 && c2 < 0xE000) {
                        return None;
                    }
                    let v: u32 = 0x10000 + (c - 0xD800) * 0x400 + (c2 - 0xDC00);
                    let ghost acc_before = acc@;
                    push_scalar_utf8(&mut acc, v);
                    proof {
                        assert forall|rest: Seq<u8>| true implies acc_before
                            + (vstd::utf8::encode_scalar(v) + rest) =~= acc@ + rest by {}
                    }
                    cur = cur + 12;
                } else if 0xDC00 <= c && c < 0xE000 {
                    return None;
                } else {
                    let ghost acc_before = acc@;
                    push_scalar_utf8(&mut acc, c);
                    proof {
                        assert forall|rest: Seq<u8>| true implies acc_before
                            + (vstd::utf8::encode_scalar(c) + rest) =~= acc@ + rest by {}
                    }
                    cur = cur + 6;
                }
            } else {
                let c: u8 = if e == 34 {
                    34
                } else if e == 92 {
                    92
                } else if e == 47 {
                    47
                } else if e == 98 {
                    8
                } else if e == 102 {
                    12
                } else if e == 110 {
                    10
                } else if e == 114 {
                    13
                } else if e == 116 {
                    9
                } else {
                    return None;
                };
                let ghost acc_before = acc@;
                acc.push(c);
                proof {
                    assert forall|rest: Seq<u8>| true implies acc_before + (seq![c] + rest) =~= acc@
                        + rest by {}
                }
                cur = cur + 2;
            }
        } else if b < 32 {
            return None;
        } else {
            let ghost acc_before = acc@;
            acc.push(b);
            proof {
                assert forall|rest: Seq<u8>| true implies acc_before + (seq![b] + rest) =~= acc@
                    + rest by {}
            }
            cur = cur + 1;
        }
    }
}

/// The position after the run of decimal digits starting at `i`.
pub open spec fn spec_digits_end(s: Seq<u8>, i: int) -> int
    decreases s.len() - i,
{
    if 0 <= i < s.len() && 48 <= s[i] <= 57 {
        spec_digits_end(s, i + 1)
    } else {
        i
    }
}

/// The value of the digit run from `i` up to `j`.
pub open spec fn spec_digits_val(s: Seq<u8>, i: int, j: int) -> nat
    decreases j - i,
{
    if i >= j {
        0
    } else {
        spec_digits_val(s, i, j - 1) * 10 + (if s[j - 1] >= 48 {
            (s[j - 1] - 48) as nat
        } else {
            0nat
        })
    }
}

/// An unsigned number at position `i`: at least one digit, value within
/// `u64`; a larger numeral is refused.
pub open spec fn spec_parse_u64(s: Seq<u8>, i: int) -> Option<(u64, int)> {
    let j = spec_digits_end(s, i);
    if j == i || !(0 <= i) {
        None
    } else if spec_digits_val(s, i, j) > u64::MAX {
        None
    } else {
        Some((spec_digits_val(s, i, j) as u64, j))
    }
}

proof fn lemma_digits_end_bounds(s: Seq<u8>, i: int)
    requires
        0 <= i <= s.len(),
    ensures
        i <= spec_digits_end(s, i) <= s.len(),
        forall|m: int| i <= m < spec_digits_end(s, i) ==> 48 <= #[trigger] s[m] <= 57,
        spec_digits_end(s, i) < s.len() ==> !(48 <= s[spec_digits_end(s, i)] <= 57),
    decreases s.len() - i,
{
    if i < s.len() && 48 <= s[i] <= 57 {
        lemma_digits_end_bounds(s, i + 1);
    }
}

/// A longer digit run never has a smaller value.
proof fn lemma_digits_val_monotone(s: Seq<u8>, i: int, m: int, j: int)
    requires
        i <= m <= j,
    ensures
        spec_digits_val(s, i, m) <= spec_digits_val(s, i, j),
    decreases j - m,
{
    if m < j {
        lemma_digits_val_monotone(s, i, m, j - 1);
        assert(spec_digits_val(s, i, j - 1) * 10 >= spec_digits_val(s, i, j - 1)) by (nonlinear_arith);
    }
}

/// Parse an unsigned number at position `i`.
fn parse_u64(s: &Vec<u8>, i: usize) -> (r: Option<(u64, usize)>)
    requires
        i <= s@.len(),
    ensures
        match r {
            Some(p) => {
                &&& spec_parse_u64(s@, i as int) == Some((p.0, p.1 as int))
                &&& i < p.1 <= s@.len()
            },
            None => spec_parse_u64(s@, i as int) is None,
        },
{
    proof {
        lemma_digits_end_bounds(s@, i as int);
    }
    let ghost end = spec_digits_end(s@, i as int);
    let n: usize = s.len();
    let mut cur: usize = i;
    let mut val: u64 = 0;
    loop
        invariant
            i <= cur,
            cur <= end <= n,
            n == s@.len(),
            val == spec_digits_val(s@, i as int, cur as int),
            forall|m: int| i <= m < end ==> 48 <= #[trigger] s@[m] <= 57,
            end < n ==> !(48 <= s@[end] <= 57),
            end == spec_digits_end(s@, i as int),
        ensures
            i <= cur <= n,
            cur == end,
            val == spec_digits_val(s@, i as int, end),
        decreases end - cur,
    {
        if cur == n {
            proof {
                assert(cur == end);
            }
            break;
        }
        let b: u8 = s[cur];
        if !(48 <= b && b <= 57) {
            proof {
                if cur < end {
                    assert(48 <= s@[cur as int] <= 57);
                }
                assert(cur == end);
            }
            break;
        }
        proof {
            if cur >= end {
                assert(cur == end);
                assert(false);
            }
        }
        let d: u64 = (b - 48) as u64;
        if val > (u64::MAX - d) / 10 {
            proof {
                assert(val * 10 + d > u64::MAX) by (nonlinear_arith)
                    requires
                        val > (u64::MAX - d) / 10,
                        d <= 9,
                ;
                lemma_digits_val_monotone(s@, i as int, cur as int + 1, end);
                assert(spec_digits_val(s@, i as int, cur as int + 1) == val * 10 + d);
            }
            return None;
        }
        proof {
            assert(val * 10 + d <= u64::MAX) by (nonlinear_arith)
                requires
                    val <= (u64::MAX - d) / 10,
                    d <= 9,
            ;
        }
        val = val * 10 + d;
        cur = cur + 1;
    }
    if cur == i {
        return None;
    }
    Some((val, cur))
}

/// A signed number at position `i`: an optional leading minus and digits,
/// within `i64`.
pub open spec fn spec_parse_i64(s: Seq<u8>, i: int) -> Option<(i64, int)> {
    if at(s, i, 45) {
        match spec_parse_u64(s, i + 1) {
            Some((n, j)) => if n > 9223372036854775808u64 {
                None
            } else if n == 9223372036854775808u64 {
                Some((i64::MIN, j))
            } else {
                Some(((-(n as int)) as i64, j))
            },
            None => None,
        }
    } else {
        match spec_parse_u64(s, i) {
            Some((n, j)) => if n > 9223372036854775807u64 {
                None
            } else {
                Some((n as i64, j))
            },
            None => None,
        }
    }
}

/// Parse a signed number at position `i`.
fn parse_i64(s: &Vec<u8>, i: usize) -> (r: Option<(i64, usize)>)
    requires
        i <= s@.len(),
    ensures
        match r {
            Some(p) => {
                &&& spec_parse_i64(s@, i as int) == Some((p.0, p.1 as int))
                &&& i < p.1 <= s@.len()
            },
            None => spec_parse_i64(s@, i as int) is None,
        },
{
    let n: usize = s.len();
    if i < n && s[i] == 45 {
        match parse_u64(s, i + 1) {
            Some((m, j)) => {
                if m > 9223372036854775808u64 {
                    None
                } else if m == 9223372036854775808u64 {
                    Some((i64::MIN, j))
                } else {
                    Some((-(m as i64), j))
                }
            },
            None => None,
        }
    } else {
        match parse_u64(s, i) {
            Some((m, j)) => {
                if m > 9223372036854775807u64 {
                    None
                } else {
                    Some((m as i64, j))
                }
            },
            None => None,
        }
    }
}

/// Relies on `String::from_utf8`: it accepts exactly the valid UTF-8 byte
/// runs, and the accepted string holds exactly the given bytes.
#[verifier::external_body]
fn bytes_to_string(v: Vec<u8>) -> (r: Option<String>)
    ensures
        match r {
            Some(t) => valid_utf8(v@) && encode_utf8(t@) == v@,
            None => !valid_utf8(v@),
        },
{
    match String::from_utf8(v) {
        Ok(t) => Some(t),
        Err(_) => None,
    }
}

pub open spec fn name_key() -> Seq<u8> {
    seq![107u8, 101u8, 121u8]
}

fn is_key(v: &Vec<u8>) -> (r: bool)
    ensures
        r == (v@ == name_key()),
{
    let ok: bool = v.len() == 3 && v[0] == 107 && v[1] == 101 && v[2] == 121;
    proof {
        if ok {
            assert(v@ =~= name_key());
        }
        if v@ == name_key() {
            assert(v@.len() == 3);
            assert(v@[0] == 107);
            assert(v@[1] == 101);
            assert(v@[2] == 121);
        }
    }
    ok
}

pub open spec fn name_data() -> Seq<u8> {
    seq![100u8, 97u8, 116u8, 97u8]
}

fn is_data(v: &Vec<u8>) -> (r: bool)
    ensures
        r == (v@ == name_data()),
{
    let ok: bool = v.len() == 4 && v[0] == 100 && v[1] == 97 && v[2] == 116 && v[3] == 97;
    proof {
        if ok {
            assert(v@ =~= name_data());
        }
        if v@ == name_data() {
            assert(v@.len() == 4);
            assert(v@[0] == 100);
            assert(v@[1] == 97);
            assert(v@[2] == 116);
            assert(v@[3] == 97);
        }
    }
    ok
}

pub open spec fn name_stop() -> Seq<u8> {
    seq![115u8, 116u8, 111u8, 112u8]
}

fn is_stop(v: &Vec<u8>) -> (r: bool)
    ensures
        r == (v@ == name_stop()),
{
    let ok: bool = v.len() == 4 && v[0] == 115 && v[1] == 116 && v[2] == 111 && v[3] == 112;
    proof {
        if ok {
            assert(v@ =~= name_stop());
        }
        if v@ == name_stop() {
            assert(v@.len() == 4);
            assert(v@[0] == 115);
            assert(v@[1] == 116);
            assert(v@[2] == 111);
            assert(v@[3] == 112);
        }
    }
    ok
}

pub open spec fn name_set_choices() -> Seq<u8> {
    seq![115u8, 101u8, 116u8, 95u8, 99u8, 104u8, 111u8, 105u8, 99u8, 101u8, 115u8]
}

fn is_set_choices(v: &Vec<u8>) -> (r: bool)
    ensures
        r == (v@ == name_set_choices()),
{
    let ok: bool = v.len() == 11 && v[0] == 115 && v[1] == 101 && v[2] == 116 && v[3] == 95 && v[4] == 99 && v[5] == 104 && v[6] == 111 && v[7] == 105 && v[8] == 99 && v[9] == 101 && v[10] == 115;
    proof {
        if ok {
            assert(v@ =~= name_set_choices());
        }
        if v@ == name_set_choices() {
            assert(v@.len() == 11);
            assert(v@[0] == 115);
            assert(v@[1] == 101);
            assert(v@[2] == 116);
            assert(v@[3] == 95);
            assert(v@[4] == 99);
            assert(v@[5] == 104);
            assert(v@[6] == 111);
            assert(v@[7] == 105);
            assert(v@[8] == 99);
            assert(v@[9] == 101);
            assert(v@[10] == 115);
        }
    }
    ok
}

pub open spec fn name_set_input() -> Seq<u8> {
    seq![115u8, 101u8, 116u8, 95u8, 105u8, 110u8, 112u8, 117u8, 116u8]
}

fn is_set_input(v: &Vec<u8>) -> (r: bool)
    ensures
        r == (v@ == name_set_input()),
{
    let ok: bool = v.len() == 9 && v[0] == 115 && v[1] == 101 && v[2] == 116 && v[3] == 95 && v[4] == 105 && v[5] == 110 && v[6] == 112 && v[7] == 117 && v[8] == 116;
    proof {
        if ok {
            assert(v@ =~= name_set_input());
        }
        if v@ == name_set_input() {
            assert(v@.len() == 9);
            assert(v@[0] == 115);
            assert(v@[1] == 101);
            assert(v@[2] == 116);
            assert(v@[3] == 95);
            assert(v@[4] == 105);
            assert(v@[5] == 110);
            assert(v@[6] == 112);
            assert(v@[7] == 117);
            assert(v@[8] == 116);
        }
    }
    ok
}

pub open spec fn name_protocol_version() -> Seq<u8> {
    seq![112u8, 114u8, 111u8, 116u8, 111u8, 99u8, 111u8, 108u8, 95u8, 118u8, 101u8, 114u8, 115u8, 105u8, 111u8, 110u8]
}

fn is_protocol_version(v: &Vec<u8>) -> (r: bool)
    ensures
        r == (v@ == name_protocol_version()),
{
    let ok: bool = v.len() == 16 && v[0] == 112 && v[1] == 114 && v[2] == 111 && v[3] == 116 && v[4] == 111 && v[5] == 99 && v[6] == 111 && v[7] == 108 && v[8] == 95 && v[9] == 118 && v[10] == 101 && v[11] == 114 && v[12] == 115 && v[13] == 105 && v[14] == 111 && v[15] == 110;
    proof {
        if ok {
            assert(v@ =~= name_protocol_version());
        }
        if v@ == name_protocol_version() {
            assert(v@.len() == 16);
            assert(v@[0] == 112);
            assert(v@[1] == 114);
            assert(v@[2] == 111);
            assert(v@[3] == 116);
            assert(v@[4] == 111);
            assert(v@[5] == 99);
            assert(v@[6] == 111);
            assert(v@[7] == 108);
            assert(v@[8] == 95);
            assert(v@[9] == 118);
            assert(v@[10] == 101);
            assert(v@[11] == 114);
            assert(v@[12] == 115);
            assert(v@[13] == 105);
            assert(v@[14] == 111);
            assert(v@[15] == 110);
        }
    }
    ok
}

pub open spec fn name_subscribe_to() -> Seq<u8> {
    seq![115u8, 117u8, 98u8, 115u8, 99u8, 114u8, 105u8, 98u8, 101u8, 95u8, 116u8, 111u8]
}

fn is_subscribe_to(v: &Vec<u8>) -> (r: bool)
    ensures
        r == (v@ == name_subscribe_to()),
{
    let ok: bool = v.len() == 12 && v[0] == 115 && v[1] == 117 && v[2] == 98 && v[3] == 115 && v[4] == 99 && v[5] == 114 && v[6] == 105 && v[7] == 98 && v[8] == 101 && v[9] == 95 && v[10] == 116 && v[11] == 111;
    proof {
        if ok {
            assert(v@ =~= name_subscribe_to());
        }
        if v@ == name_subscribe_to() {
            assert(v@.len() == 12);
            assert(v@[0] == 115);
            assert(v@[1] == 117);
            assert(v@[2] == 98);
            assert(v@[3] == 115);
            assert(v@[4] == 99);
            assert(v@[5] == 114);
            assert(v@[6] == 105);
            assert(v@[7] == 98);
            assert(v@[8] == 101);
            assert(v@[9] == 95);
            assert(v@[10] == 116);
            assert(v@[11] == 111);
        }
    }
    ok
}

pub open spec fn name_matcher() -> Seq<u8> {
    seq![109u8, 97u8, 116u8, 99u8, 104u8, 101u8, 114u8]
}

fn is_matcher(v: &Vec<u8>) -> (r: bool)
    ensures
        r == (v@ == name_matcher()),
{
    let ok: bool = v.len() == 7 && v[0] == 109 && v[1] == 97 && v[2] == 116 && v[3] == 99 && v[4] == 104 && v[5] == 101 && v[6] == 114;
    proof {
        if ok {
            assert(v@ =~= name_matcher());
        }
        if v@ == name_matcher() {
            assert(v@.len() == 7);
            assert(v@[0] == 109);
            assert(v@[1] == 97);
            assert(v@[2] == 116);
            assert(v@[3] == 99);
            assert(v@[4] == 104);
            assert(v@[5] == 101);
            assert(v@[6] == 114);
        }
    }
    ok
}

pub open spec fn name_options() -> Seq<u8> {
    seq![111u8, 112u8, 116u8, 105u8, 111u8, 110u8, 115u8]
}

fn is_options(v: &Vec<u8>) -> (r: bool)
    ensures
        r == (v@ == name_options()),
{
    let ok: bool = v.len() == 7 && v[0] == 111 && v[1] == 112 && v[2] == 116 && v[3] == 105 && v[4] == 111 && v[5] == 110 && v[6] == 115;
    proof {
        if ok {
            assert(v@ =~= name_options());
        }
        if v@ == name_options() {
            assert(v@.len() == 7);
            assert(v@[0] == 111);
            assert(v@[1] == 112);
            assert(v@[2] == 116);
            assert(v@[3] == 105);
            assert(v@[4] == 111);
            assert(v@[5] == 110);
            assert(v@[6] == 115);
        }
    }
    ok
}

pub open spec fn name_selected() -> Seq<u8> {
    seq![115u8, 101u8, 108u8, 101u8, 99u8, 116u8, 101u8, 100u8]
}

fn is_selected(v: &Vec<u8>) -> (r: bool)
    ensures
        r == (v@ == name_selected()),
{
    let ok: bool = v.len() == 8 && v[0] == 115 && v[1] == 101 && v[2] == 108 && v[3] == 101 && v[4] == 99 && v[5] == 116 && v[6] == 101 && v[7] == 100;
    proof {
        if ok {
            assert(v@ =~= name_selected());
        }
        if v@ == name_selected() {
            assert(v@.len() == 8);
            assert(v@[0] == 115);
            assert(v@[1] == 101);
            assert(v@[2] == 108);
            assert(v@[3] == 101);
            assert(v@[4] == 99);
            assert(v@[5] == 116);
            assert(v@[6] == 101);
            assert(v@[7] == 100);
        }
    }
    ok
}

pub open spec fn name_priority() -> Seq<u8> {
    seq![112u8, 114u8, 105u8, 111u8, 114u8, 105u8, 116u8, 121u8]
}

fn is_priority(v: &Vec<u8>) -> (r: bool)
    ensures
        r == (v@ == name_priority()),
{
    let ok: bool = v.len() == 8 && v[0] == 112 && v[1] == 114 && v[2] == 105 && v[3] == 111 && v[4] == 114 && v[5] == 105 && v[6] == 116 && v[7] == 121;
    proof {
        if ok {
            assert(v@ =~= name_priority());
        }
        if v@ == name_priority() {
            assert(v@.len() == 8);
            assert(v@[0] == 112);
            assert(v@[1] == 114);
            assert(v@[2] == 105);
            assert(v@[3] == 111);
            assert(v@[4] == 114);
            assert(v@[5] == 105);
            assert(v@[6] == 116);
            assert(v@[7] == 121);
        }
    }
    ok
}

pub open spec fn name_id_member() -> Seq<u8> {
    seq![105u8, 100u8]
}

fn is_id_member(v: &Vec<u8>) -> (r: bool)
    ensures
        r == (v@ == name_id_member()),
{
    let ok: bool = v.len() == 2 && v[0] == 105 && v[1] == 100;
    proof {
        if ok {
            assert(v@ =~= name_id_member());
        }
        if v@ == name_id_member() {
            assert(v@.len() == 2);
            assert(v@[0] == 105);
            assert(v@[1] == 100);
        }
    }
    ok
}

pub open spec fn name_text() -> Seq<u8> {
    seq![116u8, 101u8, 120u8, 116u8]
}

fn is_text(v: &Vec<u8>) -> (r: bool)
    ensures
        r == (v@ == name_text()),
{
    let ok: bool = v.len() == 4 && v[0] == 116 && v[1] == 101 && v[2] == 120 && v[3] == 116;
    proof {
        if ok {
            assert(v@ =~= name_text());
        }
        if v@ == name_text() {
            assert(v@.len() == 4);
            assert(v@[0] == 116);
            assert(v@[1] == 101);
            assert(v@[2] == 120);
            assert(v@[3] == 116);
        }
    }
    ok
}

pub open spec fn name_none_matcher() -> Seq<u8> {
    seq![110u8, 111u8, 110u8, 101u8]
}

fn is_none_matcher(v: &Vec<u8>) -> (r: bool)
    ensures
        r == (v@ == name_none_matcher()),
{
    let ok: bool = v.len() == 4 && v[0] == 110 && v[1] == 111 && v[2] == 110 && v[3] == 101;
    proof {
        if ok {
            assert(v@ =~= name_none_matcher());
        }
        if v@ == name_none_matcher() {
            assert(v@.len() == 4);
            assert(v@[0] == 110);
            assert(v@[1] == 111);
            assert(v@[2] == 110);
            assert(v@[3] == 101);
        }
    }
    ok
}

pub open spec fn name_fuzzy() -> Seq<u8> {
    seq![102u8, 117u8, 122u8, 122u8, 121u8]
}

fn is_fuzzy(v: &Vec<u8>) -> (r: bool)
    ensures
        r == (v@ == name_fuzzy()),
{
    let ok: bool = v.len() == 5 && v[0] == 102 && v[1] == 117 && v[2] == 122 && v[3] == 122 && v[4] == 121;
    proof {
        if ok {
            assert(v@ =~= name_fuzzy());
        }
        if v@ == name_fuzzy() {
            assert(v@.len() == 5);
            assert(v@[0] == 102);
            assert(v@[1] == 117);
            assert(v@[2] == 122);
            assert(v@[3] == 122);
            assert(v@[4] == 121);
        }
    }
    ok
}


/// The subscription flag a wire name stands for.
pub open spec fn spec_flag_of(k: Seq<u8>) -> Option<crate::types::Subscription> {
    if k == name_select() {
        Some(crate::types::Subscription::Select)
    } else if k == name_cursor_move() {
        Some(crate::types::Subscription::CursorMove)
    } else if k == name_input_change() {
        Some(crate::types::Subscription::InputChange)
    } else if k == name_window_closed() {
        Some(crate::types::Subscription::WindowClosed)
    } else {
        None
    }
}

/// A matcher kind at position `i`: the string "none" or "fuzzy".
pub open spec fn spec_parse_matcher(s: Seq<u8>, i: int) -> Option<(Matcher, int)> {
    match spec_parse_string(s, i) {
        Some((k, j)) => if k == name_none_matcher() {
            Some((Matcher::Off, j))
        } else if k == name_fuzzy() {
            Some((Matcher::Fuzzy, j))
        } else {
            None
        },
        None => None,
    }
}

fn parse_matcher(s: &Vec<u8>, i: usize) -> (r: Option<(Matcher, usize)>)
    requires
        i <= s@.len(),
    ensures
        match r {
            Some(p) => {
                &&& spec_parse_matcher(s@, i as int) == Some((p.0, p.1 as int))
                &&& i < p.1 <= s@.len()
            },
            None => spec_parse_matcher(s@, i as int) is None,
        },
{
    match parse_string(s, i) {
        Some((k, j)) => {
            if is_none_matcher(&k) {
                Some((Matcher::Off, j))
            } else if is_fuzzy(&k) {
                Some((Matcher::Fuzzy, j))
            } else {
                None
            }
        },
        None => None,
    }
}

/// After one member's value: the object closes, or a comma leads to the
/// next member's key.
pub open spec fn spec_member_sep(s: Seq<u8>, m: int) -> Option<(bool, int)> {
    let ms = spec_ws(s, m);
    if at(s, ms, 125) {
        Some((true, ms + 1))
    } else if at(s, ms, 44) {
        Some((false, spec_ws(s, ms + 1)))
    } else {
        None
    }
}

fn member_sep(s: &Vec<u8>, m: usize) -> (r: Option<(bool, usize)>)
    requires
        m <= s@.len(),
    ensures
        match r {
            Some(p) => {
                &&& spec_member_sep(s@, m as int) == Some((p.0, p.1 as int))
                &&& m < p.1 <= s@.len()
            },
            None => spec_member_sep(s@, m as int) is None,
        },
{
    let n: usize = s.len();
    let ms: usize = skip_ws(s, m);
    if ms < n && s[ms] == 125 {
        Some((true, ms + 1))
    } else if ms < n && s[ms] == 44 {
        Some((false, skip_ws(s, ms + 1)))
    } else {
        None
    }
}

/// A member's key string and its colon; the result is the position of the
/// member's value.
pub open spec fn spec_key_colon(s: Seq<u8>, i: int) -> Option<(Seq<u8>, int)> {
    match spec_parse_string(s, i) {
        Some((k, j)) => {
            let jc = spec_ws(s, j);
            if at(s, jc, 58) {
                Some((k, spec_ws(s, jc + 1)))
            } else {
                None
            }
        },
        None => None,
    }
}

fn key_colon(s: &Vec<u8>, i: usize) -> (r: Option<(Vec<u8>, usize)>)
    requires
        i <= s@.len(),
    ensures
        match r {
            Some(p) => {
                &&& spec_key_colon(s@, i as int) == Some((p.0@, p.1 as int))
                &&& i < p.1 <= s@.len()
            },
            None => spec_key_colon(s@, i as int) is None,
        },
{
    let n: usize = s.len();
    match parse_string(s, i) {
        Some((k, j)) => {
            let jc: usize = skip_ws(s, j);
            if jc < n && s[jc] == 58 {
                Some((k, skip_ws(s, jc + 1)))
            } else {
                None
            }
        },
        None => None,
    }
}

/// A run of flag-name strings after the opening bracket, folded onto `acc`;
/// an unknown name refuses the registration.
pub open spec fn spec_flags_items(s: Seq<u8>, i: int, acc: SubscriptionMask) -> Option<
    (SubscriptionMask, int),
>
    decreases s.len() - i,
{
    match spec_parse_string(s, i) {
        Some((k, j)) => match spec_flag_of(k) {
            Some(f) => {
                let acc2 = spec_with_flag(acc, f);
                let js = spec_ws(s, j);
                if at(s, js, 93) {
                    Some((acc2, js + 1))
                } else if at(s, js, 44) {
                    let nxt = spec_ws(s, js + 1);
                    if i < nxt <= s.len() {
                        spec_flags_items(s, nxt, acc2)
                    } else {
                        None
                    }
                } else {
                    None
                }
            },
            None => None,
        },
        None => None,
    }
}

/// A subscription list at position `i`: flag names between brackets.
pub open spec fn spec_parse_flags(s: Seq<u8>, i: int) -> Option<(SubscriptionMask, int)> {
    if !at(s, i, 91) {
        None
    } else {
        let i1 = spec_ws(s, i + 1);
        if at(s, i1, 93) {
            Some((spec_empty_mask(), i1 + 1))
        } else {
            spec_flags_items(s, i1, spec_empty_mask())
        }
    }
}

fn parse_flags(s: &Vec<u8>, i: usize) -> (r: Option<(SubscriptionMask, usize)>)
    requires
        i <= s@.len(),
    ensures
        match r {
            Some(p) => {
                &&& spec_parse_flags(s@, i as int) == Some((p.0, p.1 as int))
                &&& i < p.1 <= s@.len()
            },
            None => spec_parse_flags(s@, i as int) is None,
        },
{
    let n: usize = s.len();
    if !(i < n && s[i] == 91) {
        return None;
    }
    let i1: usize = skip_ws(s, i + 1);
    if i1 < n && s[i1] == 93 {
        return Some((SubscriptionMask::empty(), i1 + 1));
    }
    let mut cur: usize = i1;
    let mut acc: SubscriptionMask = SubscriptionMask::empty();
    loop
        invariant
            i < i1 <= cur <= n,
            n == s@.len(),
            i1 as int == spec_ws(s@, i + 1),
            at(s@, i as int, 91),
            !at(s@, i1 as int, 93),
            spec_parse_flags(s@, i as int) == spec_flags_items(s@, cur as int, acc),
        decreases n - cur,
    {
        match parse_string(s, cur) {
            Some((k, j)) => {
                let flagged: SubscriptionMask = if is_select(&k) {
                    acc.with(crate::types::Subscription::Select)
                } else if is_cursor_move(&k) {
                    acc.with(crate::types::Subscription::CursorMove)
                } else if is_input_change(&k) {
                    acc.with(crate::types::Subscription::InputChange)
                } else if is_window_closed(&k) {
                    acc.with(crate::types::Subscription::WindowClosed)
                } else {
                    return None;
                };
                acc = flagged;
                let js: usize = skip_ws(s, j);
                if js < n && s[js] == 93 {
                    return Some((acc, js + 1));
                }
                if js < n && s[js] == 44 {
                    cur = skip_ws(s, js + 1);
                } else {
                    return None;
                }
            },
            None => {
                return None;
            },
        }
    }
}

/// One member's value of a registration line, keyed by its name; a known
/// name already seen, or an unknown one, refuses the line.
pub open spec fn spec_reg_value(
    s: Seq<u8>,
    k: Seq<u8>,
    jv: int,
    slots: (Option<u8>, Option<SubscriptionMask>, Option<Matcher>),
) -> Option<((Option<u8>, Option<SubscriptionMask>, Option<Matcher>), int)> {
    if k == name_protocol_version() && slots.0 is None {
        match spec_parse_u64(s, jv) {
            Some((n, m)) => if n > 255 {
                None
            } else {
                Some(((Some(n as u8), slots.1, slots.2), m))
            },
            None => None,
        }
    } else if k == name_subscribe_to() && slots.1 is None {
        match spec_parse_flags(s, jv) {
            Some((mk, m)) => Some(((slots.0, Some(mk), slots.2), m)),
            None => None,
        }
    } else if k == name_matcher() && slots.2 is None {
        match spec_parse_matcher(s, jv) {
            Some((mt, m)) => Some(((slots.0, slots.1, Some(mt)), m)),
            None => None,
        }
    } else {
        None
    }
}

/// The members of one registration line, in any order: the version is
/// required, the subscription list and the matcher optional.
#[verifier::opaque]
pub open spec fn spec_reg_members(
    s: Seq<u8>,
    i: int,
    slots: (Option<u8>, Option<SubscriptionMask>, Option<Matcher>),
) -> Option<(Registration, int)>
    decreases s.len() - i,
{
    match spec_key_colon(s, i) {
        Some((k, jv)) => match spec_reg_value(s, k, jv, slots) {
            Some((slots2, m)) => match spec_member_sep(s, m) {
                Some((true, end)) => spec_reg_finish(slots2, end),
                Some((false, nxt)) => if i < nxt <= s.len() {
                    spec_reg_members(s, nxt, slots2)
                } else {
                    None
                },
                None => None,
            },
            None => None,
        },
        None => None,
    }
}

/// A finished registration: the version is required; absent members take
/// their defaults.
pub open spec fn spec_reg_finish(
    slots: (Option<u8>, Option<SubscriptionMask>, Option<Matcher>),
    end: int,
) -> Option<(Registration, int)> {
    match slots.0 {
        Some(v) => Some(
            (
                Registration {
                    protocol_version: v,
                    subscribe_to: match slots.1 {
                        Some(mk) => mk,
                        None => spec_default_mask(),
                    },
                    matcher: match slots.2 {
                        Some(mt) => mt,
                        None => Matcher::Fuzzy,
                    },
                },
                end,
            ),
        ),
        None => None,
    }
}

/// One whole registration line: one JSON object, with nothing but blanks
/// around it. A version above 255, an unknown member or an unknown flag
/// name refuses the line.
pub open spec fn spec_parse_registration(s: Seq<u8>) -> Option<Registration> {
    let i0 = spec_ws(s, 0);
    if !at(s, i0, 123) {
        None
    } else {
        let i1 = spec_ws(s, i0 + 1);
        if at(s, i1, 125) {
            None
        } else {
            match spec_reg_members(s, i1, (None, None, None)) {
                Some((reg, end)) => if spec_ws(s, end) == s.len() {
                    Some(reg)
                } else {
                    None
                },
                None => None,
            }
        }
    }
}

/// Decode the first line of a connection.
#[verifier::rlimit(100)]
pub fn parse_registration(s: &Vec<u8>) -> (r: Option<Registration>)
    ensures
        r == spec_parse_registration(s@),
{
    let n: usize = s.len();
    let i0: usize = skip_ws(s, 0);
    if !(i0 < n && s[i0] == 123) {
        return None;
    }
    let i1: usize = skip_ws(s, i0 + 1);
    if i1 < n && s[i1] == 125 {
        return None;
    }
    let mut ver: Option<u8> = None;
    let mut mask: Option<SubscriptionMask> = None;
    let mut mat: Option<Matcher> = None;
    let mut cur: usize = i1;
    loop
        invariant
            i0 < i1 <= cur <= n,
            n == s@.len(),
            i0 as int == spec_ws(s@, 0),
            i1 as int == spec_ws(s@, i0 + 1),
            at(s@, i0 as int, 123),
            !at(s@, i1 as int, 125),
            spec_reg_members(s@, i1 as int, (None, None, None)) == spec_reg_members(
                s@,
                cur as int,
                (ver, mask, mat),
            ),
        decreases n - cur,
    {
        proof {
            reveal(spec_reg_members);
        }
        let ghost slots0 = (ver, mask, mat);
        let (k, jv) = match key_colon(s, cur) {
            Some(p) => p,
            None => {
                return None;
            },
        };
        let m: usize;
        if is_protocol_version(&k) {
            if ver.is_some() {
                return None;
            }
            let (nv, m2) = match parse_u64(s, jv) {
                Some(q) => q,
                None => {
                    return None;
                },
            };
            if nv > 255 {
                return None;
            }
            ver = Some(nv as u8);
            m = m2;
        } else if is_subscribe_to(&k) {
            if mask.is_some() {
                return None;
            }
            let (mk, m2) = match parse_flags(s, jv) {
                Some(q) => q,
                None => {
                    return None;
                },
            };
            mask = Some(mk);
            m = m2;
        } else if is_matcher(&k) {
            if mat.is_some() {
                return None;
            }
            let (mt, m2) = match parse_matcher(s, jv) {
                Some(q) => q,
                None => {
                    return None;
                },
            };
            mat = Some(mt);
            m = m2;
        } else {
            return None;
        }
        proof {
            assert(spec_reg_value(s@, k@, jv as int, slots0) == Some(
                ((ver, mask, mat), m as int),
            ));
        }
        match member_sep(s, m) {
            Some((true, end)) => {
                let v: u8 = match ver {
                    Some(v) => v,
                    None => {
                        return None;
                    },
                };
                let out = Registration {
                    protocol_version: v,
                    subscribe_to: match mask {
                        Some(mk) => mk,
                        None => SubscriptionMask::default(),
                    },
                    matcher: match mat {
                        Some(mt) => mt,
                        None => Matcher::Fuzzy,
                    },
                };
                if skip_ws(s, end) == n {
                    return Some(out);
                }
                return None;
            },
            Some((false, nxt)) => {
                cur = nxt;
            },
            None => {
                return None;
            },
        }
    }
}


fn is_select(v: &Vec<u8>) -> (r: bool)
    ensures
        r == (v@ == name_select()),
{
    let ok: bool = v.len() == 6 && v[0] == 115 && v[1] == 101 && v[2] == 108 && v[3] == 101 && v[4] == 99 && v[5] == 116;
    proof {
        if ok {
            assert(v@ =~= name_select());
        }
        if v@ == name_select() {
            assert(v@.len() == 6);
            assert(v@[0] == 115);
            assert(v@[1] == 101);
            assert(v@[2] == 108);
            assert(v@[3] == 101);
            assert(v@[4] == 99);
            assert(v@[5] == 116);
        }
    }
    ok
}

fn is_cursor_move(v: &Vec<u8>) -> (r: bool)
    ensures
        r == (v@ == name_cursor_move()),
{
    let ok: bool = v.len() == 11 && v[0] == 99 && v[1] == 117 && v[2] == 114 && v[3] == 115 && v[4] == 111 && v[5] == 114 && v[6] == 95 && v[7] == 109 && v[8] == 111 && v[9] == 118 && v[10] == 101;
    proof {
        if ok {
            assert(v@ =~= name_cursor_move());
        }
        if v@ == name_cursor_move() {
            assert(v@.len() == 11);
            assert(v@[0] == 99);
            assert(v@[1] == 117);
            assert(v@[2] == 114);
            assert(v@[3] == 115);
            assert(v@[4] == 111);
            assert(v@[5] == 114);
            assert(v@[6] == 95);
            assert(v@[7] == 109);
            assert(v@[8] == 111);
            assert(v@[9] == 118);
            assert(v@[10] == 101);
        }
    }
    ok
}

fn is_input_change(v: &Vec<u8>) -> (r: bool)
    ensures
        r == (v@ == name_input_change()),
{
    let ok: bool = v.len() == 12 && v[0] == 105 && v[1] == 110 && v[2] == 112 && v[3] == 117 && v[4] == 116 && v[5] == 95 && v[6] == 99 && v[7] == 104 && v[8] == 97 && v[9] == 110 && v[10] == 103 && v[11] == 101;
    proof {
        if ok {
            assert(v@ =~= name_input_change());
        }
        if v@ == name_input_change() {
            assert(v@.len() == 12);
            assert(v@[0] == 105);
            assert(v@[1] == 110);
            assert(v@[2] == 112);
            assert(v@[3] == 117);
            assert(v@[4] == 116);
            assert(v@[5] == 95);
            assert(v@[6] == 99);
            assert(v@[7] == 104);
            assert(v@[8] == 97);
            assert(v@[9] == 110);
            assert(v@[10] == 103);
            assert(v@[11] == 101);
        }
    }
    ok
}

fn is_window_closed(v: &Vec<u8>) -> (r: bool)
    ensures
        r == (v@ == name_window_closed()),
{
    let ok: bool = v.len() == 13 && v[0] == 119 && v[1] == 105 && v[2] == 110 && v[3] == 100 && v[4] == 111 && v[5] == 119 && v[6] == 95 && v[7] == 99 && v[8] == 108 && v[9] == 111 && v[10] == 115 && v[11] == 101 && v[12] == 100;
    proof {
        if ok {
            assert(v@ =~= name_window_closed());
        }
        if v@ == name_window_closed() {
            assert(v@.len() == 13);
            assert(v@[0] == 119);
            assert(v@[1] == 105);
            assert(v@[2] == 110);
            assert(v@[3] == 100);
            assert(v@[4] == 111);
            assert(v@[5] == 119);
            assert(v@[6] == 95);
            assert(v@[7] == 99);
            assert(v@[8] == 108);
            assert(v@[9] == 111);
            assert(v@[10] == 115);
            assert(v@[11] == 101);
            assert(v@[12] == 100);
        }
    }
    ok
}


/// What a decoded client-request line says, spoken over mathematical
/// values: choice entries as `(priority, id, text)` keys in wire order.
pub enum RequestShape {
    Stop,
    SetChoices { options: Seq<ChoiceKey>, selected: Option<usize> },
    SetInput(Seq<char>),
}

/// The payload member of a request, before the tag decides what it must be.
pub enum DataShape {
    Null,
    Text(Seq<u8>),
    Choices(Seq<ChoiceKey>, Option<usize>),
}

/// The token `null` at position `i`.
pub open spec fn spec_null(s: Seq<u8>, i: int) -> Option<int> {
    if at(s, i, 110) && at(s, i + 1, 117) && at(s, i + 2, 108) && at(s, i + 3, 108) {
        Some(i + 4)
    } else {
        None
    }
}

fn parse_null(s: &Vec<u8>, i: usize) -> (r: Option<usize>)
    requires
        i <= s@.len(),
    ensures
        match r {
            Some(j) => spec_null(s@, i as int) == Some(j as int) && i < j <= s@.len(),
            None => spec_null(s@, i as int) is None,
        },
{
    let n: usize = s.len();
    if n - i >= 4 && s[i] == 110 && s[i + 1] == 117 && s[i + 2] == 108 && s[i + 3] == 108 {
        Some(i + 4)
    } else {
        None
    }
}

/// The `selected` member's value: a position or null.
pub open spec fn spec_parse_selected(s: Seq<u8>, i: int) -> Option<(Option<usize>, int)> {
    match spec_null(s, i) {
        Some(j) => Some((None::<usize>, j)),
        None => match spec_parse_u64(s, i) {
            Some((n, j)) => if n > usize::MAX as u64 {
                None
            } else {
                Some((Some(n as usize), j))
            },
            None => None,
        },
    }
}

fn parse_selected(s: &Vec<u8>, i: usize) -> (r: Option<(Option<usize>, usize)>)
    requires
        i <= s@.len(),
    ensures
        match r {
            Some(p) => {
                &&& spec_parse_selected(s@, i as int) == Some((p.0, p.1 as int))
                &&& i < p.1 <= s@.len()
            },
            None => spec_parse_selected(s@, i as int) is None,
        },
{
    match parse_null(s, i) {
        Some(j) => Some((None, j)),
        None => match parse_u64(s, i) {
            Some((nv, j)) => {
                if nv > usize::MAX as u64 {
                    None
                } else {
                    Some((Some(nv as usize), j))
                }
            },
            None => None,
        },
    }
}

/// One member's value of a choice object, keyed by its name.
pub open spec fn spec_choice_value(
    s: Seq<u8>,
    k: Seq<u8>,
    jv: int,
    slots: (Option<i64>, Option<usize>, Option<Seq<u8>>),
) -> Option<((Option<i64>, Option<usize>, Option<Seq<u8>>), int)> {
    if k == name_priority() && slots.0 is None {
        match spec_parse_i64(s, jv) {
            Some((p, m)) => Some(((Some(p), slots.1, slots.2), m)),
            None => None,
        }
    } else if k == name_id_member() && slots.1 is None {
        match spec_parse_u64(s, jv) {
            Some((n, m)) => if n > usize::MAX as u64 {
                None
            } else {
                Some(((slots.0, Some(n as usize), slots.2), m))
            },
            None => None,
        }
    } else if k == name_text() && slots.2 is None {
        match spec_parse_string(s, jv) {
            Some((content, m)) => Some(((slots.0, slots.1, Some(content)), m)),
            None => None,
        }
    } else {
        None
    }
}

/// The members of one choice object, taken in any order, each at most once.
#[verifier::opaque]
pub open spec fn spec_choice_members(
    s: Seq<u8>,
    i: int,
    slots: (Option<i64>, Option<usize>, Option<Seq<u8>>),
) -> Option<(ChoiceKey, int)>
    decreases s.len() - i,
{
    match spec_key_colon(s, i) {
        Some((k, jv)) => match spec_choice_value(s, k, jv, slots) {
            Some((slots2, m)) => match spec_member_sep(s, m) {
                Some((true, end)) => spec_choice_finish(slots2, end),
                Some((false, nxt)) => if i < nxt <= s.len() {
                    spec_choice_members(s, nxt, slots2)
                } else {
                    None
                },
                None => None,
            },
            None => None,
        },
        None => None,
    }
}

/// A finished choice object: id and text are required, a missing priority
/// is zero, and the text must be valid UTF-8.
pub open spec fn spec_choice_finish(
    slots: (Option<i64>, Option<usize>, Option<Seq<u8>>),
    end: int,
) -> Option<(ChoiceKey, int)> {
    match slots.1 {
        Some(n) => match slots.2 {
            Some(content) => if valid_utf8(content) {
                Some(
                    (
                        (
                            (match slots.0 {
                                Some(p) => p,
                                None => 0i64,
                            }) as int,
                            n as int,
                            decode_utf8(content),
                        ),
                        end,
                    ),
                )
            } else {
                None
            },
            None => None,
        },
        None => None,
    }
}

/// One choice object at position `i`: priority (optional), id and text,
/// in any order.
pub open spec fn spec_parse_choice(s: Seq<u8>, i: int) -> Option<(ChoiceKey, int)> {
    if !at(s, i, 123) {
        None
    } else {
        let i1 = spec_ws(s, i + 1);
        if at(s, i1, 125) {
            None
        } else {
            spec_choice_members(s, i1, (None, None, None))
        }
    }
}

fn parse_choice(s: &Vec<u8>, i: usize) -> (r: Option<(Choice, usize)>)
    requires
        i <= s@.len(),
    ensures
        match r {
            Some(p) => {
                &&& spec_parse_choice(s@, i as int) == Some((p.0@, p.1 as int))
                &&& i < p.1 <= s@.len()
            },
            None => spec_parse_choice(s@, i as int) is None,
        },
{
    let n: usize = s.len();
    if !(i < n && s[i] == 123) {
        return None;
    }
    let i1: usize = skip_ws(s, i + 1);
    if i1 < n && s[i1] == 125 {
        return None;
    }
    let mut pri: Option<i64> = None;
    let mut idv: Option<usize> = None;
    let mut text: Option<Vec<u8>> = None;
    let mut cur: usize = i1;
    loop
        invariant
            i < i1 <= cur <= n,
            n == s@.len(),
            i1 as int == spec_ws(s@, i + 1),
            at(s@, i as int, 123),
            !at(s@, i1 as int, 125),
            spec_choice_members(s@, i1 as int, (None, None, None)) == spec_choice_members(
                s@,
                cur as int,
                (
                    pri,
                    idv,
                    match text {
                        Some(v) => Some(v@),
                        None => None::<Seq<u8>>,
                    },
                ),
            ),
        decreases n - cur,
    {
        proof {
            reveal(spec_choice_members);
        }
        let ghost slots0 = (
            pri,
            idv,
            match text {
                Some(ref v) => Some(v@),
                None => None::<Seq<u8>>,
            },
        );
        let (k, jv) = match key_colon(s, cur) {
            Some(p) => p,
            None => {
                return None;
            },
        };
        let m: usize;
        if is_priority(&k) {
            if pri.is_some() {
                return None;
            }
            let (p, m2) = match parse_i64(s, jv) {
                Some(q) => q,
                None => {
                    return None;
                },
            };
            pri = Some(p);
            m = m2;
        } else if is_id_member(&k) {
            if idv.is_some() {
                return None;
            }
            let (nv, m2) = match parse_u64(s, jv) {
                Some(q) => q,
                None => {
                    return None;
                },
            };
            if nv > usize::MAX as u64 {
                return None;
            }
            idv = Some(nv as usize);
            m = m2;
        } else if is_text(&k) {
            if text.is_some() {
                return None;
            }
            let (content, m2) = match parse_string(s, jv) {
                Some(q) => q,
                None => {
                    return None;
                },
            };
            text = Some(content);
            m = m2;
        } else {
            return None;
        }
        proof {
            assert(spec_choice_value(s@, k@, jv as int, slots0) == Some(
                (
                    (
                        pri,
                        idv,
                        match text {
                            Some(v) => Some(v@),
                            None => None::<Seq<u8>>,
                        },
                    ),
                    m as int,
                ),
            ));
        }
        match member_sep(s, m) {
            Some((true, end)) => {
                let id: usize = match idv {
                    Some(n) => n,
                    None => {
                        return None;
                    },
                };
                let content: Vec<u8> = match text {
                    Some(v) => v,
                    None => {
                        return None;
                    },
                };
                let t: String = match bytes_to_string(content) {
                    Some(t) => t,
                    None => {
                        return None;
                    },
                };
                proof {
                    vstd::utf8::encode_utf8_decode_utf8(t@);
                }
                let priority: i64 = match pri {
                    Some(p) => p,
                    None => 0,
                };
                return Some((Choice { priority, id, text: ArcStr::new(t) }, end));
            },
            Some((false, nxt)) => {
                cur = nxt;
            },
            None => {
                return None;
            },
        }
    }
}

/// A run of choice objects after the opening bracket, in wire order.
pub open spec fn spec_choices_items(s: Seq<u8>, i: int, acc: Seq<ChoiceKey>) -> Option<
    (Seq<ChoiceKey>, int),
>
    decreases s.len() - i,
{
    match spec_parse_choice(s, i) {
        Some((c, j)) => {
            let js = spec_ws(s, j);
            if at(s, js, 93) {
                Some((acc.push(c), js + 1))
            } else if at(s, js, 44) {
                let nxt = spec_ws(s, js + 1);
                if i < nxt <= s.len() {
                    spec_choices_items(s, nxt, acc.push(c))
                } else {
                    None
                }
            } else {
                None
            }
        },
        None => None,
    }
}

/// The `options` array: choice objects between brackets.
pub open spec fn spec_parse_choices_array(s: Seq<u8>, i: int) -> Option<(Seq<ChoiceKey>, int)> {
    if !at(s, i, 91) {
        None
    } else {
        let i1 = spec_ws(s, i + 1);
        if at(s, i1, 93) {
            Some((Seq::empty(), i1 + 1))
        } else {
            spec_choices_items(s, i1, Seq::empty())
        }
    }
}

fn parse_choices_array(s: &Vec<u8>, i: usize) -> (r: Option<(Vec<Choice>, usize)>)
    requires
        i <= s@.len(),
    ensures
        match r {
            Some(p) => {
                &&& spec_parse_choices_array(s@, i as int) == Some((keys_of(p.0@), p.1 as int))
                &&& i < p.1 <= s@.len()
            },
            None => spec_parse_choices_array(s@, i as int) is None,
        },
{
    let n: usize = s.len();
    if !(i < n && s[i] == 91) {
        return None;
    }
    let i1: usize = skip_ws(s, i + 1);
    let mut raw: Vec<Choice> = Vec::new();
    proof {
        assert(keys_of(raw@) =~= Seq::<ChoiceKey>::empty());
    }
    if i1 < n && s[i1] == 93 {
        return Some((raw, i1 + 1));
    }
    let mut cur: usize = i1;
    loop
        invariant
            i < i1 <= cur <= n,
            n == s@.len(),
            i1 as int == spec_ws(s@, i + 1),
            at(s@, i as int, 91),
            !at(s@, i1 as int, 93),
            spec_choices_items(s@, i1 as int, Seq::empty()) == spec_choices_items(
                s@,
                cur as int,
                keys_of(raw@),
            ),
        decreases n - cur,
    {
        let (c, e) = match parse_choice(s, cur) {
            Some(p) => p,
            None => {
                return None;
            },
        };
        let ghost keys_before = keys_of(raw@);
        raw.push(c);
        proof {
            assert(keys_of(raw@) =~= keys_before.push(c@));
        }
        let js: usize = skip_ws(s, e);
        if js < n && s[js] == 93 {
            return Some((raw, js + 1));
        }
        if js < n && s[js] == 44 {
            cur = skip_ws(s, js + 1);
        } else {
            return None;
        }
    }
}

/// One member's value of a choice-set object, keyed by its name.
pub open spec fn spec_cs_value(
    s: Seq<u8>,
    k: Seq<u8>,
    jv: int,
    slots: (Option<Seq<ChoiceKey>>, Option<Option<usize>>),
) -> Option<((Option<Seq<ChoiceKey>>, Option<Option<usize>>), int)> {
    if k == name_options() && slots.0 is None {
        match spec_parse_choices_array(s, jv) {
            Some((o, m)) => Some(((Some(o), slots.1), m)),
            None => None,
        }
    } else if k == name_selected() && slots.1 is None {
        match spec_parse_selected(s, jv) {
            Some((sv, m)) => Some(((slots.0, Some(sv)), m)),
            None => None,
        }
    } else {
        None
    }
}

/// The members of one choice-set object, in any order: the options are
/// required, the selected position optional.
#[verifier::opaque]
pub open spec fn spec_cs_members(
    s: Seq<u8>,
    i: int,
    slots: (Option<Seq<ChoiceKey>>, Option<Option<usize>>),
) -> Option<((Seq<ChoiceKey>, Option<usize>), int)>
    decreases s.len() - i,
{
    match spec_key_colon(s, i) {
        Some((k, jv)) => match spec_cs_value(s, k, jv, slots) {
            Some((slots2, m)) => match spec_member_sep(s, m) {
                Some((true, end)) => spec_cs_finish(slots2, end),
                Some((false, nxt)) => if i < nxt <= s.len() {
                    spec_cs_members(s, nxt, slots2)
                } else {
                    None
                },
                None => None,
            },
            None => None,
        },
        None => None,
    }
}

pub open spec fn spec_cs_finish(
    slots: (Option<Seq<ChoiceKey>>, Option<Option<usize>>),
    end: int,
) -> Option<((Seq<ChoiceKey>, Option<usize>), int)> {
    match slots.0 {
        Some(o) => Some(
            (
                (
                    o,
                    match slots.1 {
                        Some(sv) => sv,
                        None => None::<usize>,
                    },
                ),
                end,
            ),
        ),
        None => None,
    }
}

/// A choice-set object at position `i`: `options` and an optional
/// `selected`, in any order.
pub open spec fn spec_parse_choiceset(s: Seq<u8>, i: int) -> Option<
    ((Seq<ChoiceKey>, Option<usize>), int),
> {
    if !at(s, i, 123) {
        None
    } else {
        let i1 = spec_ws(s, i + 1);
        if at(s, i1, 125) {
            None
        } else {
            spec_cs_members(s, i1, (None, None))
        }
    }
}

/// Parse a choice-set object, handing back the collection already in its
/// order with repeats dropped; its selected position is taken as sent.
#[verifier::rlimit(100)]
fn parse_choiceset(s: &Vec<u8>, i: usize) -> (r: Option<(ChoiceSet, usize)>)
    requires
        i <= s@.len(),
    ensures
        match r {
            Some(p) => {
                &&& spec_parse_choiceset(s@, i as int) is Some
                &&& ({
                    let ((opts, sel), e) = spec_parse_choiceset(s@, i as int).unwrap();
                    &&& p.1 == e
                    &&& i < p.1 <= s@.len()
                    &&& keys_sorted(p.0.keys())
                    &&& forall|k: ChoiceKey| has_key(p.0.keys(), k) == has_key(opts, k)
                    &&& p.0.selected == sel
                })
            },
            None => spec_parse_choiceset(s@, i as int) is None,
        },
{
    let n: usize = s.len();
    if !(i < n && s[i] == 123) {
        return None;
    }
    let i1: usize = skip_ws(s, i + 1);
    if i1 < n && s[i1] == 125 {
        return None;
    }
    let mut raw: Option<Vec<Choice>> = None;
    let mut sel: Option<Option<usize>> = None;
    let mut cur: usize = i1;
    loop
        invariant
            i < i1 <= cur <= n,
            n == s@.len(),
            i1 as int == spec_ws(s@, i + 1),
            at(s@, i as int, 123),
            !at(s@, i1 as int, 125),
            spec_cs_members(s@, i1 as int, (None, None)) == spec_cs_members(
                s@,
                cur as int,
                (
                    match raw {
                        Some(v) => Some(keys_of(v@)),
                        None => None::<Seq<ChoiceKey>>,
                    },
                    sel,
                ),
            ),
        decreases n - cur,
    {
        proof {
            reveal(spec_cs_members);
        }
        let ghost slots0 = (
            match raw {
                Some(ref v) => Some(keys_of(v@)),
                None => None::<Seq<ChoiceKey>>,
            },
            sel,
        );
        let (k, jv) = match key_colon(s, cur) {
            Some(p) => p,
            None => {
                return None;
            },
        };
        let m: usize;
        if is_options(&k) {
            if raw.is_some() {
                return None;
            }
            let (o, m2) = match parse_choices_array(s, jv) {
                Some(q) => q,
                None => {
                    return None;
                },
            };
            raw = Some(o);
            m = m2;
        } else if is_selected(&k) {
            if sel.is_some() {
                return None;
            }
            let (sv, m2) = match parse_selected(s, jv) {
                Some(q) => q,
                None => {
                    return None;
                },
            };
            sel = Some(sv);
            m = m2;
        } else {
            return None;
        }
        proof {
            assert(spec_cs_value(s@, k@, jv as int, slots0) == Some(
                (
                    (
                        match raw {
                            Some(v) => Some(keys_of(v@)),
                            None => None::<Seq<ChoiceKey>>,
                        },
                        sel,
                    ),
                    m as int,
                ),
            ));
        }
        match member_sep(s, m) {
            Some((true, end)) => {
                let o: Vec<Choice> = match raw {
                    Some(v) => v,
                    None => {
                        return None;
                    },
                };
                let selected: Option<usize> = match sel {
                    Some(sv) => sv,
                    None => None,
                };
                let cs = ChoiceSet::from_vec(o, selected);
                return Some((cs, end));
            },
            Some((false, nxt)) => {
                cur = nxt;
            },
            None => {
                return None;
            },
        }
    }
}

/// A request's payload value before the tag is known: a string, a choice
/// set, or null.
pub open spec fn spec_parse_data(s: Seq<u8>, i: int) -> Option<(DataShape, int)> {
    if at(s, i, 34) {
        match spec_parse_string(s, i) {
            Some((content, j)) => Some((DataShape::Text(content), j)),
            None => None,
        }
    } else if at(s, i, 123) {
        match spec_parse_choiceset(s, i) {
            Some(((opts, sel), j)) => Some((DataShape::Choices(opts, sel), j)),
            None => None,
        }
    } else {
        match spec_null(s, i) {
            Some(j) => Some((DataShape::Null, j)),
            None => None,
        }
    }
}

/// A decoded payload value as executable data.
enum DataValue {
    Null,
    Text(Vec<u8>),
    Choices(ChoiceSet),
}

/// Whether an executable payload holds what a decoded one says.
spec fn data_value_matches(d: DataValue, shape: DataShape) -> bool {
    match d {
        DataValue::Null => shape is Null,
        DataValue::Text(v) => match shape {
            DataShape::Text(content) => v@ == content,
            _ => false,
        },
        DataValue::Choices(cs) => match shape {
            DataShape::Choices(opts, sel) => {
                &&& keys_sorted(cs.keys())
                &&& forall|k: ChoiceKey| has_key(cs.keys(), k) == has_key(opts, k)
                &&& cs.selected == sel
            },
            _ => false,
        },
    }
}

fn parse_data(s: &Vec<u8>, i: usize) -> (r: Option<(DataValue, usize)>)
    requires
        i <= s@.len(),
    ensures
        match r {
            Some(p) => {
                &&& spec_parse_data(s@, i as int) is Some
                &&& p.1 as int == spec_parse_data(s@, i as int).unwrap().1
                &&& data_value_matches(p.0, spec_parse_data(s@, i as int).unwrap().0)
                &&& i < p.1 <= s@.len()
            },
            None => spec_parse_data(s@, i as int) is None,
        },
{
    let n: usize = s.len();
    if i < n && s[i] == 34 {
        match parse_string(s, i) {
            Some((content, j)) => Some((DataValue::Text(content), j)),
            None => None,
        }
    } else if i < n && s[i] == 123 {
        match parse_choiceset(s, i) {
            Some((cs, j)) => Some((DataValue::Choices(cs), j)),
            None => None,
        }
    } else {
        match parse_null(s, i) {
            Some(j) => Some((DataValue::Null, j)),
            None => None,
        }
    }
}

/// One member's value of a request line, keyed by its name.
pub open spec fn spec_req_value(
    s: Seq<u8>,
    k: Seq<u8>,
    jv: int,
    slots: (Option<Seq<u8>>, Option<DataShape>),
) -> Option<((Option<Seq<u8>>, Option<DataShape>), int)> {
    if k == name_key() && slots.0 is None {
        match spec_parse_string(s, jv) {
            Some((v, m)) => Some(((Some(v), slots.1), m)),
            None => None,
        }
    } else if k == name_data() && slots.1 is None {
        match spec_parse_data(s, jv) {
            Some((d, m)) => Some(((slots.0, Some(d)), m)),
            None => None,
        }
    } else {
        None
    }
}

/// The members of one request line, in any order: the tagging `key` and,
/// for the tags that carry one, a `data` payload.
#[verifier::opaque]
pub open spec fn spec_req_members(
    s: Seq<u8>,
    i: int,
    slots: (Option<Seq<u8>>, Option<DataShape>),
) -> Option<(RequestShape, int)>
    decreases s.len() - i,
{
    match spec_key_colon(s, i) {
        Some((k, jv)) => match spec_req_value(s, k, jv, slots) {
            Some((slots2, m)) => match spec_member_sep(s, m) {
                Some((true, end)) => spec_req_finish(slots2, end),
                Some((false, nxt)) => if i < nxt <= s.len() {
                    spec_req_members(s, nxt, slots2)
                } else {
                    None
                },
                None => None,
            },
            None => None,
        },
        None => None,
    }
}

/// A finished request line: the tag decides what the payload must be; a
/// stop carries none (or null), text must be valid UTF-8.
pub open spec fn spec_req_finish(
    slots: (Option<Seq<u8>>, Option<DataShape>),
    end: int,
) -> Option<(RequestShape, int)> {
    match slots.0 {
        Some(v) => if v == name_stop() {
            match slots.1 {
                None => Some((RequestShape::Stop, end)),
                Some(d) => if d is Null {
                    Some((RequestShape::Stop, end))
                } else {
                    None
                },
            }
        } else if v == name_set_input() {
            match slots.1 {
                Some(d) => match d {
                    DataShape::Text(content) => if valid_utf8(content) {
                        Some((RequestShape::SetInput(decode_utf8(content)), end))
                    } else {
                        None
                    },
                    _ => None,
                },
                None => None,
            }
        } else if v == name_set_choices() {
            match slots.1 {
                Some(d) => match d {
                    DataShape::Choices(opts, sel) => Some(
                        (RequestShape::SetChoices { options: opts, selected: sel }, end),
                    ),
                    _ => None,
                },
                None => None,
            }
        } else {
            None
        },
        None => None,
    }
}

/// One whole client-request line: one JSON object, with nothing but blanks
/// around it.
pub open spec fn spec_parse_client_request(s: Seq<u8>) -> Option<RequestShape> {
    let i0 = spec_ws(s, 0);
    if !at(s, i0, 123) {
        None
    } else {
        let i1 = spec_ws(s, i0 + 1);
        if at(s, i1, 125) {
            None
        } else {
            match spec_req_members(s, i1, (None, None)) {
                Some((shape, end)) => if spec_ws(s, end) == s.len() {
                    Some(shape)
                } else {
                    None
                },
                None => None,
            }
        }
    }
}

/// Whether an executable request holds what a decoded line says: the same
/// text, or the same choices — sorted and deduplicated — with the same
/// selected position.
pub open spec fn matches_shape(req: ClientRequest, shape: RequestShape) -> bool {
    match (req, shape) {
        (ClientRequest::Stop, RequestShape::Stop) => true,
        (ClientRequest::SetInput(t), RequestShape::SetInput(chars)) => t@ == chars,
        (
            ClientRequest::SetChoices(cs),
            RequestShape::SetChoices { options, selected },
        ) => {
            &&& keys_sorted(cs.keys())
            &&& forall|k: ChoiceKey| has_key(cs.keys(), k) == has_key(options, k)
            &&& cs.selected == selected
        },
        _ => false,
    }
}

/// Decode one request line into a ready-to-apply request: the choices of a
/// `SetChoices` arrive ordered and deduplicated.
pub fn parse_client_request(s: &Vec<u8>) -> (r: Option<ClientRequest>)
    ensures
        match r {
            Some(req) => {
                &&& spec_parse_client_request(s@) is Some
                &&& matches_shape(req, spec_parse_client_request(s@).unwrap())
            },
            None => spec_parse_client_request(s@) is None,
        },
{
    let n: usize = s.len();
    let i0: usize = skip_ws(s, 0);
    if !(i0 < n && s[i0] == 123) {
        return None;
    }
    let i1: usize = skip_ws(s, i0 + 1);
    if i1 < n && s[i1] == 125 {
        return None;
    }
    let mut keyv: Option<Vec<u8>> = None;
    let mut data: Option<DataValue> = None;
    let ghost mut data_shape: Option<DataShape> = None;
    let mut cur: usize = i1;
    loop
        invariant
            i0 < i1 <= cur <= n,
            n == s@.len(),
            i0 as int == spec_ws(s@, 0),
            i1 as int == spec_ws(s@, i0 + 1),
            at(s@, i0 as int, 123),
            !at(s@, i1 as int, 125),
            match data {
                Some(dv) => data_shape is Some && data_value_matches(dv, data_shape.unwrap()),
                None => data_shape is None,
            },
            spec_req_members(s@, i1 as int, (None, None)) == spec_req_members(
                s@,
                cur as int,
                (
                    match keyv {
                        Some(v) => Some(v@),
                        None => None::<Seq<u8>>,
                    },
                    data_shape,
                ),
            ),
        decreases n - cur,
    {
        proof {
            reveal(spec_req_members);
        }
        let ghost slots0 = (
            match keyv {
                Some(ref v) => Some(v@),
                None => None::<Seq<u8>>,
            },
            data_shape,
        );
        let (k, jv) = match key_colon(s, cur) {
            Some(p) => p,
            None => {
                return None;
            },
        };
        let m: usize;
        if is_key(&k) {
            if keyv.is_some() {
                return None;
            }
            let (v, m2) = match parse_string(s, jv) {
                Some(q) => q,
                None => {
                    return None;
                },
            };
            keyv = Some(v);
            m = m2;
        } else if is_data(&k) {
            if data.is_some() {
                return None;
            }
            let (d, m2) = match parse_data(s, jv) {
                Some(q) => q,
                None => {
                    return None;
                },
            };
            proof {
                data_shape = Some(spec_parse_data(s@, jv as int).unwrap().0);
            }
            data = Some(d);
            m = m2;
        } else {
            return None;
        }
        proof {
            assert(spec_req_value(s@, k@, jv as int, slots0) == Some(
                (
                    (
                        match keyv {
                            Some(v) => Some(v@),
                            None => None::<Seq<u8>>,
                        },
                        data_shape,
                    ),
                    m as int,
                ),
            ));
        }
        match member_sep(s, m) {
            Some((true, end)) => {
                let v: Vec<u8> = match keyv {
                    Some(v) => v,
                    None => {
                        return None;
                    },
                };
                let out: ClientRequest;
                if is_stop(&v) {
                    match data {
                        Some(DataValue::Null) => {},
                        None => {},
                        Some(_) => {
                            return None;
                        },
                    }
                    out = ClientRequest::Stop;
                } else if is_set_input(&v) {
                    let content: Vec<u8> = match data {
                        Some(DataValue::Text(content)) => content,
                        _ => {
                            return None;
                        },
                    };
                    let t: String = match bytes_to_string(content) {
                        Some(t) => t,
                        None => {
                            return None;
                        },
                    };
                    proof {
                        vstd::utf8::encode_utf8_decode_utf8(t@);
                    }
                    out = ClientRequest::SetInput(t);
                } else if is_set_choices(&v) {
                    let cs: ChoiceSet = match data {
                        Some(DataValue::Choices(cs)) => cs,
                        _ => {
                            return None;
                        },
                    };
                    out = ClientRequest::SetChoices(cs);
                } else {
                    return None;
                }
                if skip_ws(s, end) == n {
                    return Some(out);
                }
                return None;
            },
            Some((false, nxt)) => {
                cur = nxt;
            },
            None => {
                return None;
            },
        }
    }
}

} // verus!
