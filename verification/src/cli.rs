//! The assembler and disassembler behind the command-line surface, and the
//! hex codec they share. All text is handled as ASCII bytes; the binary
//! front-end converts to and from strings at its edge.

use vstd::prelude::*;

use crate::bytecode::{is_push_with_data, scan_step, visits};
use crate::errors::EvmError;
use crate::contract::Contract;
use crate::interpreter::{fresh_for, outcome_of, runs_to, Interpreter};

verus! {

/// Whether `c` is an ASCII hex digit.
pub open spec fn is_hex_digit(c: u8) -> bool {
    (0x30 <= c <= 0x39) || (0x61 <= c <= 0x66) || (0x41 <= c <= 0x46)
}

/// The value of an ASCII hex digit.
pub open spec fn hex_digit_val(c: u8) -> nat {
    if 0x30 <= c <= 0x39 {
        (c - 0x30) as nat
    } else if 0x61 <= c <= 0x66 {
        (c - 0x61 + 10) as nat
    } else if 0x41 <= c <= 0x46 {
        (c - 0x41 + 10) as nat
    } else {
        0
    }
}

/// The lowercase ASCII hex digit of a value below 16.
pub open spec fn hex_digit_of(n: nat) -> u8 {
    if n < 10 {
        (0x30 + n) as u8
    } else {
        (0x61 + n - 10) as u8
    }
}

/// `s` without a leading `0x`, if it carries one.
pub open spec fn strip_hex_prefix(s: Seq<u8>) -> Seq<u8> {
    if s.len() >= 2 && s[0] == 0x30 && s[1] == 0x78 {
        s.skip(2)
    } else {
        s
    }
}

/// Whether `s` is a well-formed hex string body: hex digits only, an even
/// number of them.
pub open spec fn hex_valid(s: Seq<u8>) -> bool {
    s.len() % 2 == 0 && forall|i: int| 0 <= i < s.len() ==> is_hex_digit(#[trigger] s[i])
}

/// The bytes a hex string body spells, two digits per byte.
pub open spec fn hex_bytes(s: Seq<u8>) -> Seq<u8> {
    Seq::new((s.len() / 2) as nat, |i: int|
        (hex_digit_val(s[2 * i]) * 16 + hex_digit_val(s[2 * i + 1])) as u8)
}

/// The lowercase hex spelling of a byte string, two digits per byte,
/// without a prefix.
pub open spec fn hex_of(b: Seq<u8>) -> Seq<u8> {
    Seq::new(2 * b.len(), |i: int|
        if i % 2 == 0 {
            hex_digit_of(b[i / 2] as nat / 16)
        } else {
            hex_digit_of(b[i / 2] as nat % 16)
        })
}

/// Decode one ASCII hex digit.
fn hex_digit(c: u8) -> (r: Option<u8>)
    ensures
        r matches Some(v) ==> is_hex_digit(c) && v == hex_digit_val(c),
        r is None ==> !is_hex_digit(c),
{
    if 0x30 <= c && c <= 0x39 {
        Some(c - 0x30)
    } else if 0x61 <= c && c <= 0x66 {
        Some(c - 0x61 + 10)
    } else if 0x41 <= c && c <= 0x46 {
        Some(c - 0x41 + 10)
    } else {
        None
    }
}

/// Decode a hex string, with or without a `0x` prefix, into its bytes.
/// Fails on any non-digit and on an odd number of digits.
pub fn hex_decode(text: &[u8]) -> (r: Option<Vec<u8>>)
    ensures
        ({
            let body = strip_hex_prefix(text@);
            &&& r is Some <==> hex_valid(body)
            &&& (r matches Some(v) ==> v@ == hex_bytes(body))
        }),
{
    let text_len = text.len();
    let start: usize = if text_len >= 2 && text[0] == 0x30 && text[1] == 0x78 {
        2
    } else {
        0
    };
    proof {
        assert(strip_hex_prefix(text@) =~= text@.skip(start as int));
    }
    if (text_len - start) % 2 != 0 {
        return None;
    }
    let mut out: Vec<u8> = Vec::new();
    let mut i: usize = start;
    while i < text_len
        invariant
            start <= i <= text_len,
            text_len == text@.len(),
            strip_hex_prefix(text@) == text@.skip(start as int),
            (i - start) % 2 == 0,
            (text_len - start) % 2 == 0,
            forall|j: int| start <= j < i ==> is_hex_digit(#[trigger] text@[j]),
            out@.len() == (i - start) / 2,
            out@ == hex_bytes(text@.skip(start as int)).take((i - start) / 2),
        decreases text_len - i,
    {
        let hi = match hex_digit(text[i]) {
            Some(v) => v,
            None => {
                proof {
                    assert(strip_hex_prefix(text@)[i - start] == text@[i as int]);
                }
                return None;
            },
        };
        let lo = match hex_digit(text[i + 1]) {
            Some(v) => v,
            None => {
                proof {
                    assert(strip_hex_prefix(text@)[i + 1 - start] == text@[i + 1]);
                }
                return None;
            },
        };
        out.push(hi * 16 + lo);
        proof {
            assert(out@ =~= hex_bytes(text@.skip(start as int)).take(
                (i + 2 - start) / 2,
            ));
        }
        i = i + 2;
    }
    proof {
        assert(out@ =~= hex_bytes(text@.skip(start as int)));
        let body = strip_hex_prefix(text@);
        assert forall|j: int| 0 <= j < body.len() implies is_hex_digit(#[trigger] body[j]) by {
            assert(body[j] == text@[j + start]);
        }
    }
    Some(out)
}

/// Encode bytes as lowercase hex without a prefix.
pub fn hex_encode(bytes: &[u8]) -> (r: Vec<u8>)
    ensures
        r@ == hex_of(bytes@),
{
    let mut out: Vec<u8> = Vec::new();
    let len = bytes.len();
    let mut i: usize = 0;
    while i < len
        invariant
            i <= len,
            len == bytes@.len(),
            out@ == hex_of(bytes@).take(2 * i),
        decreases len - i,
    {
        let b = bytes[i];
        let hi = b / 16;
        let lo = b % 16;
        let hc: u8 = if hi < 10 {
            0x30 + hi
        } else {
            0x61 + (hi - 10)
        };
        let lc: u8 = if lo < 10 {
            0x30 + lo
        } else {
            0x61 + (lo - 10)
        };
        out.push(hc);
        out.push(lc);
        proof {
            assert(out@ =~= hex_of(bytes@).take(2 * (i + 1)));
        }
        i = i + 1;
    }
    proof {
        assert(out@ =~= hex_of(bytes@));
    }
    out
}

/// The decimal digits of `n`, most significant first.
pub open spec fn dec_digits(n: nat) -> Seq<u8>
    decreases n,
{
    if n < 10 {
        seq![(0x30 + n) as u8]
    } else {
        dec_digits(n / 10).push((0x30 + n % 10) as u8)
    }
}

/// `s` left-padded with ASCII zeros to at least four characters.
pub open spec fn pad4(s: Seq<u8>) -> Seq<u8> {
    if s.len() >= 4 {
        s
    } else {
        Seq::new((4 - s.len()) as nat, |k: int| 0x30u8) + s
    }
}

/// Render `n` in decimal.
pub fn dec_u(n: usize) -> (r: Vec<u8>)
    ensures
        r@ == dec_digits(n as nat),
        r@.len() >= 1,
    decreases n,
{
    if n < 10 {
        let mut v: Vec<u8> = Vec::new();
        v.push(0x30 + n as u8);
        proof {
            assert(v@ =~= dec_digits(n as nat));
        }
        v
    } else {
        let mut v = dec_u(n / 10);
        v.push(0x30 + (n % 10) as u8);
        v
    }
}

/// Render `n` in decimal, zero-padded to at least four characters.
fn dec_u4(n: usize) -> (r: Vec<u8>)
    ensures
        r@ == pad4(dec_digits(n as nat)),
{
    let digits = dec_u(n);
    if digits.len() >= 4 {
        return digits;
    }
    let mut out: Vec<u8> = Vec::new();
    let mut k: usize = digits.len();
    while k < 4
        invariant
            digits@.len() <= k <= 4,
            digits@ == dec_digits(n as nat),
            1 <= digits@.len() <= 4,
            out@ == Seq::new((k - digits@.len()) as nat, |j: int| 0x30u8),
        decreases 4 - k,
    {
        out.push(0x30);
        proof {
            assert(out@ =~= Seq::new((k + 1 - digits@.len()) as nat, |j: int| 0x30u8));
        }
        k = k + 1;
    }
    let mut tail = digits;
    out.append(&mut tail);
    proof {
        assert(out@ =~= pad4(dec_digits(n as nat)));
    }
    out
}

/// The canonical mnemonic of an opcode, or nothing when the byte names no
/// implemented instruction.
pub open spec fn name_of(op: u8) -> Option<Seq<u8>> {
    if op == 0x00 {
        Some(seq![83, 84, 79, 80])
    } else if op == 0x01 {
        Some(seq![65, 68, 68])
    } else if op == 0x02 {
        Some(seq![77, 85, 76])
    } else if op == 0x03 {
        Some(seq![83, 85, 66])
    } else if op == 0x04 {
        Some(seq![68, 73, 86])
    } else if op == 0x10 {
        Some(seq![76, 84])
    } else if op == 0x11 {
        Some(seq![71, 84])
    } else if op == 0x12 {
        Some(seq![83, 76, 84])
    } else if op == 0x13 {
        Some(seq![83, 71, 84])
    } else if op == 0x14 {
        Some(seq![69, 81])
    } else if op == 0x15 {
        Some(seq![73, 83, 90, 69, 82, 79])
    } else if op == 0x16 {
        Some(seq![65, 78, 68])
    } else if op == 0x17 {
        Some(seq![79, 82])
    } else if op == 0x18 {
        Some(seq![88, 79, 82])
    } else if op == 0x19 {
        Some(seq![78, 79, 84])
    } else if op == 0x1a {
        Some(seq![66, 89, 84, 69])
    } else if op == 0x1b {
        Some(seq![83, 72, 76])
    } else if op == 0x1c {
        Some(seq![83, 72, 82])
    } else if op == 0x1d {
        Some(seq![83, 65, 82])
    } else if op == 0x35 {
        Some(seq![67, 65, 76, 76, 68, 65, 84, 65, 76, 79, 65, 68])
    } else if op == 0x36 {
        Some(seq![67, 65, 76, 76, 68, 65, 84, 65, 83, 73, 90, 69])
    } else if op == 0x37 {
        Some(seq![67, 65, 76, 76, 68, 65, 84, 65, 67, 79, 80, 89])
    } else if op == 0x51 {
        Some(seq![77, 76, 79, 65, 68])
    } else if op == 0x52 {
        Some(seq![77, 83, 84, 79, 82, 69])
    } else if op == 0x53 {
        Some(seq![77, 83, 84, 79, 82, 69, 56])
    } else if op == 0x56 {
        Some(seq![74, 85, 77, 80])
    } else if op == 0x57 {
        Some(seq![74, 85, 77, 80, 73])
    } else if op == 0x58 {
        Some(seq![80, 67])
    } else if op == 0x59 {
        Some(seq![77, 83, 73, 90, 69])
    } else if op == 0x5b {
        Some(seq![74, 85, 77, 80, 68, 69, 83, 84])
    } else if 0x5f <= op && op <= 0x7f {
        Some(seq![80, 85, 83, 72] + dec_digits((op - 0x5f) as nat))
    } else if 0x80 <= op && op <= 0x8f {
        Some(seq![68, 85, 80] + dec_digits((op - 0x7f) as nat))
    } else if 0x90 <= op && op <= 0x9f {
        Some(seq![83, 87, 65, 80] + dec_digits((op - 0x8f) as nat))
    } else if op == 0xf3 {
        Some(seq![82, 69, 84, 85, 82, 78])
    } else if op == 0xfe {
        Some(seq![73, 78, 86, 65, 76, 73, 68])
    } else {
        None
    }
}

/// Look up the mnemonic of an opcode.
pub fn opcode_name(op: u8) -> (r: Option<Vec<u8>>)
    ensures
        r is Some <==> name_of(op) is Some,
        r matches Some(v) ==> name_of(op) == Some(v@),
{
    let mut v: Vec<u8> = Vec::new();
    if op == 0x00 {
        v.push(83);
        v.push(84);
        v.push(79);
        v.push(80);
    } else if op == 0x01 {
        v.push(65);
        v.push(68);
        v.push(68);
    } else if op == 0x02 {
        v.push(77);
        v.push(85);
        v.push(76);
    } else if op == 0x03 {
        v.push(83);
        v.push(85);
        v.push(66);
    } else if op == 0x04 {
        v.push(68);
        v.push(73);
        v.push(86);
    } else if op == 0x10 {
        v.push(76);
        v.push(84);
    } else if op == 0x11 {
        v.push(71);
        v.push(84);
    } else if op == 0x12 {
        v.push(83);
        v.push(76);
        v.push(84);
    } else if op == 0x13 {
        v.push(83);
        v.push(71);
        v.push(84);
    } else if op == 0x14 {
        v.push(69);
        v.push(81);
    } else if op == 0x15 {
        v.push(73);
        v.push(83);
        v.push(90);
        v.push(69);
        v.push(82);
        v.push(79);
    } else if op == 0x16 {
        v.push(65);
        v.push(78);
        v.push(68);
    } else if op == 0x17 {
        v.push(79);
        v.push(82);
    } else if op == 0x18 {
        v.push(88);
        v.push(79);
        v.push(82);
    } else if op == 0x19 {
        v.push(78);
        v.push(79);
        v.push(84);
    } else if op == 0x1a {
        v.push(66);
        v.push(89);
        v.push(84);
        v.push(69);
    } else if op == 0x1b {
        v.push(83);
        v.push(72);
        v.push(76);
    } else if op == 0x1c {
        v.push(83);
        v.push(72);
        v.push(82);
    } else if op == 0x1d {
        v.push(83);
        v.push(65);
        v.push(82);
    } else if op == 0x35 || op == 0x36 || op == 0x37 {
        v.push(67);
        v.push(65);
        v.push(76);
        v.push(76);
        v.push(68);
        v.push(65);
        v.push(84);
        v.push(65);
        if op == 0x35 {
            v.push(76);
            v.push(79);
            v.push(65);
            v.push(68);
        } else if op == 0x36 {
            v.push(83);
            v.push(73);
            v.push(90);
            v.push(69);
        } else {
            v.push(67);
            v.push(79);
            v.push(80);
            v.push(89);
        }
    } else if op == 0x51 {
        v.push(77);
        v.push(76);
        v.push(79);
        v.push(65);
        v.push(68);
    } else if op == 0x52 || op == 0x53 {
        v.push(77);
        v.push(83);
        v.push(84);
        v.push(79);
        v.push(82);
        v.push(69);
        if op == 0x53 {
            v.push(56);
        }
    } else if op == 0x56 {
        v.push(74);
        v.push(85);
        v.push(77);
        v.push(80);
    } else if op == 0x57 {
        v.push(74);
        v.push(85);
        v.push(77);
        v.push(80);
        v.push(73);
    } else if op == 0x58 {
        v.push(80);
        v.push(67);
    } else if op == 0x59 {
        v.push(77);
        v.push(83);
        v.push(73);
        v.push(90);
        v.push(69);
    } else if op == 0x5b {
        v.push(74);
        v.push(85);
        v.push(77);
        v.push(80);
        v.push(68);
        v.push(69);
        v.push(83);
        v.push(84);
    } else if 0x5f <= op && op <= 0x7f {
        v.push(80);
        v.push(85);
        v.push(83);
        v.push(72);
        let mut d = dec_u((op - 0x5f) as usize);
        v.append(&mut d);
        proof {
            assert(v@ =~= seq![80, 85, 83, 72] + dec_digits((op - 0x5f) as nat));
        }
    } else if 0x80 <= op && op <= 0x8f {
        v.push(68);
        v.push(85);
        v.push(80);
        let mut d = dec_u((op - 0x7f) as usize);
        v.append(&mut d);
        proof {
            assert(v@ =~= seq![68, 85, 80] + dec_digits((op - 0x7f) as nat));
        }
    } else if 0x90 <= op && op <= 0x9f {
        v.push(83);
        v.push(87);
        v.push(65);
        v.push(80);
        let mut d = dec_u((op - 0x8f) as usize);
        v.append(&mut d);
        proof {
            assert(v@ =~= seq![83, 87, 65, 80] + dec_digits((op - 0x8f) as nat));
        }
    } else if op == 0xf3 {
        v.push(82);
        v.push(69);
        v.push(84);
        v.push(85);
        v.push(82);
        v.push(78);
    } else if op == 0xfe {
        v.push(73);
        v.push(78);
        v.push(86);
        v.push(65);
        v.push(76);
        v.push(73);
        v.push(68);
    } else {
        return None;
    }
    proof {
        assert(name_of(op) matches Some(nm) && v@ =~= nm);
    }
    Some(v)
}

/// The first opcode from `from` upward whose mnemonic is `tok`.
pub open spec fn opcode_search(tok: Seq<u8>, from: nat) -> Option<u8>
    decreases 256 - from,
{
    if from >= 256 {
        None
    } else if name_of(from as u8) == Some(tok) {
        Some(from as u8)
    } else {
        opcode_search(tok, from + 1)
    }
}

/// Whether two byte strings are equal.
fn eq_bytes(a: &[u8], b: &[u8]) -> (r: bool)
    ensures
        r <==> a@ == b@,
{
    let a_len = a.len();
    if a_len != b.len() {
        proof {
            assert(a@ != b@);
        }
        return false;
    }
    let mut i: usize = 0;
    while i < a_len
        invariant
            i <= a_len,
            a_len == a@.len() == b@.len(),
            forall|j: int| 0 <= j < i ==> a@[j] == b@[j],
        decreases a_len - i,
    {
        if a[i] != b[i] {
            return false;
        }
        i = i + 1;
    }
    proof {
        assert(a@ =~= b@);
    }
    true
}

/// Find the opcode whose mnemonic is `token`.
pub fn opcode_of_name(token: &[u8]) -> (r: Option<u8>)
    ensures
        r == opcode_search(token@, 0),
{
    let mut op: usize = 0;
    while op < 256
        invariant
            op <= 256,
            opcode_search(token@, 0) == opcode_search(token@, op as nat),
        decreases 256 - op,
    {
        match opcode_name(op as u8) {
            Some(name) => {
                if eq_bytes(name.as_slice(), token) {
                    return Some(op as u8);
                }
            },
            None => {},
        }
        op = op + 1;
    }
    None
}

/// Whether `c` is inline whitespace: space, tab or carriage return.
pub open spec fn is_ws(c: u8) -> bool {
    c == 32 || c == 9 || c == 13
}

/// The newline byte.
pub open spec fn is_nl(c: u8) -> bool {
    c == 10
}

/// How many leading bytes of `s` come before the first newline.
pub open spec fn first_line_len(s: Seq<u8>) -> nat
    decreases s.len(),
{
    if s.len() == 0 {
        0
    } else if is_nl(s[0]) {
        0
    } else {
        1 + first_line_len(s.skip(1))
    }
}

/// The lines of `s`, split at newlines; a trailing newline closes the last
/// line rather than opening an empty one.
pub open spec fn lines_of(s: Seq<u8>) -> Seq<Seq<u8>>
    decreases s.len(),
{
    if s.len() == 0 {
        Seq::empty()
    } else {
        let k = first_line_len(s);
        if k >= s.len() {
            seq![s]
        } else {
            seq![s.take(k as int)] + lines_of(s.skip(k as int + 1))
        }
    }
}

/// How many leading bytes of `s` come before the first whitespace.
pub open spec fn first_tok_len(s: Seq<u8>) -> nat
    decreases s.len(),
{
    if s.len() == 0 {
        0
    } else if is_ws(s[0]) {
        0
    } else {
        1 + first_tok_len(s.skip(1))
    }
}

/// The whitespace-separated tokens of one line.
pub open spec fn tokens_of(s: Seq<u8>) -> Seq<Seq<u8>>
    decreases s.len(),
{
    if s.len() == 0 {
        Seq::empty()
    } else if is_ws(s[0]) {
        tokens_of(s.skip(1))
    } else {
        let k = first_tok_len(s);
        if k >= s.len() {
            seq![s]
        } else {
            seq![s.take(k as int)] + tokens_of(s.skip(k as int))
        }
    }
}

/// A prefix free of newlines shifts the first line boundary.
proof fn lemma_fll_concat(a: Seq<u8>, rest: Seq<u8>)
    requires
        forall|i: int| 0 <= i < a.len() ==> !is_nl(#[trigger] a[i]),
    ensures
        first_line_len(a + rest) == a.len() + first_line_len(rest),
    decreases a.len(),
{
    if a.len() == 0 {
        assert(a + rest =~= rest);
    } else {
        assert((a + rest).skip(1) =~= a.skip(1) + rest);
        lemma_fll_concat(a.skip(1), rest);
    }
}

/// A prefix free of whitespace shifts the first token boundary.
proof fn lemma_ftl_concat(a: Seq<u8>, rest: Seq<u8>)
    requires
        forall|i: int| 0 <= i < a.len() ==> !is_ws(#[trigger] a[i]),
    ensures
        first_tok_len(a + rest) == a.len() + first_tok_len(rest),
    decreases a.len(),
{
    if a.len() == 0 {
        assert(a + rest =~= rest);
    } else {
        assert((a + rest).skip(1) =~= a.skip(1) + rest);
        lemma_ftl_concat(a.skip(1), rest);
    }
}

/// The views of a vector of byte vectors.
pub open spec fn views(v: Seq<Vec<u8>>) -> Seq<Seq<u8>> {
    v.map_values(|x: Vec<u8>| x@)
}

/// Split a text into its lines.
pub fn split_lines(text: &[u8]) -> (r: Vec<Vec<u8>>)
    ensures
        views(r@) == lines_of(text@),
{
    let text_len = text.len();
    let mut out: Vec<Vec<u8>> = Vec::new();
    let mut cur: Vec<u8> = Vec::new();
    proof {
        assert(views(out@) =~= Seq::<Seq<u8>>::empty());
        assert(cur@ + text@.skip(0) =~= text@);
        assert(Seq::<Seq<u8>>::empty() + lines_of(text@) =~= lines_of(text@));
    }
    let mut i: usize = 0;
    while i < text_len
        invariant
            i <= text_len,
            text_len == text@.len(),
            forall|j: int| 0 <= j < cur@.len() ==> !is_nl(#[trigger] cur@[j]),
            lines_of(text@) == views(out@) + lines_of(cur@ + text@.skip(i as int)),
        decreases text_len - i,
    {
        let c = text[i];
        let ghost pre_out = out@;
        let ghost pre_cur = cur@;
        let ghost rest = text@.skip(i as int);
        if c == 10 {
            proof {
                lemma_fll_concat(pre_cur, rest);
                assert((pre_cur + rest).take(pre_cur.len() as int) =~= pre_cur);
                assert((pre_cur + rest).skip(pre_cur.len() as int + 1) =~= text@.skip(i + 1));
            }
            out.push(cur);
            cur = Vec::new();
            proof {
                assert(views(out@) =~= views(pre_out).push(pre_cur));
                assert(cur@ + text@.skip(i + 1) =~= text@.skip(i + 1));
                assert(views(out@) + lines_of(text@.skip(i + 1)) =~= (views(pre_out)
                    + seq![pre_cur]) + lines_of(text@.skip(i + 1)));
                assert(views(pre_out) + (seq![pre_cur] + lines_of(text@.skip(i + 1)))
                    =~= (views(pre_out) + seq![pre_cur]) + lines_of(text@.skip(i + 1)));
            }
        } else {
            cur.push(c);
            proof {
                assert(cur@ + text@.skip(i + 1) =~= pre_cur + rest);
            }
        }
        i = i + 1;
    }
    proof {
        assert(cur@ + text@.skip(text_len as int) =~= cur@);
    }
    if cur.len() > 0 {
        let ghost pre_out = out@;
        let ghost pre_cur = cur@;
        proof {
            lemma_fll_concat(pre_cur, Seq::empty());
            assert(pre_cur + Seq::<u8>::empty() =~= pre_cur);
        }
        out.push(cur);
        proof {
            assert(views(out@) =~= views(pre_out).push(pre_cur));
            assert(views(pre_out) + seq![pre_cur] =~= views(pre_out).push(pre_cur));
        }
    }
    out
}

/// Split one line into its whitespace-separated tokens.
pub fn split_tokens(line: &[u8]) -> (r: Vec<Vec<u8>>)
    ensures
        views(r@) == tokens_of(line@),
{
    let line_len = line.len();
    let mut out: Vec<Vec<u8>> = Vec::new();
    let mut cur: Vec<u8> = Vec::new();
    proof {
        assert(views(out@) =~= Seq::<Seq<u8>>::empty());
        assert(cur@ + line@.skip(0) =~= line@);
        assert(Seq::<Seq<u8>>::empty() + tokens_of(line@) =~= tokens_of(line@));
    }
    let mut i: usize = 0;
    while i < line_len
        invariant
            i <= line_len,
            line_len == line@.len(),
            forall|j: int| 0 <= j < cur@.len() ==> !is_ws(#[trigger] cur@[j]),
            tokens_of(line@) == views(out@) + tokens_of(cur@ + line@.skip(i as int)),
        decreases line_len - i,
    {
        let c = line[i];
        let ghost pre_out = out@;
        let ghost pre_cur = cur@;
        let ghost rest = line@.skip(i as int);
        if c == 32 || c == 9 || c == 13 {
            if cur.len() > 0 {
                proof {
                    lemma_ftl_concat(pre_cur, rest);
                    assert((pre_cur + rest).take(pre_cur.len() as int) =~= pre_cur);
                    assert((pre_cur + rest).skip(pre_cur.len() as int) =~= rest);
                }
                out.push(cur);
                cur = Vec::new();
                proof {
                    assert(views(out@) =~= views(pre_out).push(pre_cur));
                    assert(cur@ + rest =~= rest);
                    assert(views(pre_out) + (seq![pre_cur] + tokens_of(rest)) =~= (views(
                        pre_out,
                    ) + seq![pre_cur]) + tokens_of(rest));
                }
            }
            proof {
                assert(cur@ + rest =~= rest);
                assert(rest.skip(1) =~= line@.skip(i + 1));
                assert(cur@ + line@.skip(i + 1) =~= rest.skip(1));
            }
        } else {
            cur.push(c);
            proof {
                assert(cur@ + line@.skip(i + 1) =~= pre_cur + rest);
            }
        }
        i = i + 1;
    }
    proof {
        assert(cur@ + line@.skip(line_len as int) =~= cur@);
    }
    if cur.len() > 0 {
        let ghost pre_out = out@;
        let ghost pre_cur = cur@;
        proof {
            lemma_ftl_concat(pre_cur, Seq::empty());
            assert(pre_cur + Seq::<u8>::empty() =~= pre_cur);
        }
        out.push(cur);
        proof {
            assert(views(out@) =~= views(pre_out).push(pre_cur));
            assert(views(pre_out) + seq![pre_cur] =~= views(pre_out).push(pre_cur));
        }
    }
    out
}

/// The bytes one assembly line contributes: nothing for a blank line, the
/// opcode for a bare mnemonic, the opcode followed by its immediate for a
/// mnemonic with a hex operand. Unknown mnemonics, bad hex and extra
/// tokens are rejected.
pub open spec fn line_bytes(line: Seq<u8>) -> Option<Seq<u8>> {
    let toks = tokens_of(line);
    if toks.len() == 0 {
        Some(Seq::empty())
    } else {
        match opcode_search(toks[0], 0) {
            None => None,
            Some(op) => if toks.len() == 1 {
                Some(seq![op])
            } else if toks.len() == 2 {
                let body = strip_hex_prefix(toks[1]);
                if hex_valid(body) {
                    Some(seq![op] + hex_bytes(body))
                } else {
                    None
                }
            } else {
                None
            },
        }
    }
}

/// The bytes a sequence of assembly lines spells, or nothing if any line
/// is malformed.
pub open spec fn asm_lines(ls: Seq<Seq<u8>>) -> Option<Seq<u8>>
    decreases ls.len(),
{
    if ls.len() == 0 {
        Some(Seq::empty())
    } else {
        match line_bytes(ls[0]) {
            None => None,
            Some(first) => match asm_lines(ls.skip(1)) {
                None => None,
                Some(rest) => Some(first + rest),
            },
        }
    }
}

/// The lines already assembled, joined in front of what is still owed.
spec fn asm_done(acc: Seq<u8>, ls: Seq<Seq<u8>>, i: int) -> Option<Seq<u8>> {
    match asm_lines(ls.skip(i)) {
        None => None,
        Some(rest) => Some(acc + rest),
    }
}

/// Assembled lines compose: consuming one well-formed line moves its bytes
/// into the accumulator.
proof fn lemma_asm_step(acc: Seq<u8>, ls: Seq<Seq<u8>>, i: int, b: Seq<u8>)
    requires
        0 <= i < ls.len(),
        line_bytes(ls[i]) == Some(b),
    ensures
        asm_done(acc, ls, i) == asm_done(acc + b, ls, i + 1),
{
    assert(ls.skip(i)[0] == ls[i]);
    assert(ls.skip(i).skip(1) =~= ls.skip(i + 1));
    match asm_lines(ls.skip(i + 1)) {
        None => {},
        Some(rest) => {
            assert(acc + (b + rest) =~= (acc + b) + rest);
        },
    }
}

/// Assemble a text of one instruction per line (`MNEMONIC [0xHEX]`) into
/// bytecode. Fails exactly when some line is malformed.
pub fn assemble(text: &[u8]) -> (r: Option<Vec<u8>>)
    ensures
        r is Some <==> asm_lines(lines_of(text@)) is Some,
        r matches Some(v) ==> asm_lines(lines_of(text@)) == Some(v@),
{
    let lines = split_lines(text);
    let ghost ls = lines_of(text@);
    let mut out: Vec<u8> = Vec::new();
    proof {
        assert(ls.skip(0) =~= ls);
        if asm_lines(ls) is Some {
            assert(out@ + asm_lines(ls).unwrap() =~= asm_lines(ls).unwrap());
        }
    }
    let line_count = lines.len();
    let mut i: usize = 0;
    while i < line_count
        invariant
            i <= line_count,
            line_count == lines@.len(),
            views(lines@) == ls,
            ls == lines_of(text@),
            asm_done(out@, ls, i as int) == asm_lines(ls),
        decreases line_count - i,
    {
        let toks = split_tokens(lines[i].as_slice());
        let ghost line = ls[i as int];
        proof {
            assert(lines@[i as int]@ == views(lines@)[i as int]);
        }
        if toks.len() == 0 {
            proof {
                lemma_asm_step(out@, ls, i as int, Seq::empty());
                assert(out@ + Seq::<u8>::empty() =~= out@);
            }
            i = i + 1;
            continue;
        }
        let ghost tokviews = tokens_of(line);
        proof {
            assert(toks@[0]@ == views(toks@)[0]);
        }
        let op = match opcode_of_name(toks[0].as_slice()) {
            Some(op) => op,
            None => {
                proof {
                    assert(line_bytes(line) is None);
                    assert(ls.skip(i as int)[0] == ls[i as int]);
                    assert(asm_lines(ls.skip(i as int)) is None);
                }
                return None;
            },
        };
        if toks.len() == 1 {
            out.push(op);
            proof {
                lemma_asm_step(out@.drop_last(), ls, i as int, seq![op]);
                assert(out@.drop_last() + seq![op] =~= out@);
            }
            i = i + 1;
            continue;
        }
        if toks.len() > 2 {
            proof {
                assert(line_bytes(line) is None);
                assert(ls.skip(i as int)[0] == ls[i as int]);
                assert(asm_lines(ls.skip(i as int)) is None);
            }
            return None;
        }
        proof {
            assert(toks@[1]@ == views(toks@)[1]);
        }
        let data = match hex_decode(toks[1].as_slice()) {
            Some(d) => d,
            None => {
                proof {
                    assert(line_bytes(line) is None);
                    assert(ls.skip(i as int)[0] == ls[i as int]);
                    assert(asm_lines(ls.skip(i as int)) is None);
                }
                return None;
            },
        };
        let ghost pre_out = out@;
        out.push(op);
        let mut tail = data;
        let ghost data_view = tail@;
        out.append(&mut tail);
        proof {
            assert(out@ =~= pre_out + (seq![op] + data_view));
            lemma_asm_step(pre_out, ls, i as int, seq![op] + data_view);
        }
        i = i + 1;
    }
    proof {
        assert(ls.skip(line_count as int) =~= Seq::<Seq<u8>>::empty());
        assert(out@ + Seq::<u8>::empty() =~= out@);
    }
    Some(out)
}

/// The mnemonic of the byte `UNKNOWN` opcodes disassemble to.
pub open spec fn unknown_name() -> Seq<u8> {
    seq![85u8, 78u8, 75u8, 78u8, 79u8, 87u8, 78u8]
}

/// One line of disassembly for the instruction at offset `i`: an optional
/// zero-padded decimal offset prefix, the mnemonic, and for PUSH the
/// `0x`-prefixed immediate, clamped at the end of the code.
pub open spec fn dis_line(code: Seq<u8>, i: int, verbose: bool) -> Seq<u8> {
    let op = code[i];
    let prefix = if verbose {
        pad4(dec_digits(i as nat)) + seq![58u8, 32u8]
    } else {
        Seq::empty()
    };
    let body = match name_of(op) {
        Some(nm) => if 0x5f <= op <= 0x7f {
            let pend = if i + 1 + (op - 0x5f) > code.len() {
                code.len() as int
            } else {
                i + 1 + (op - 0x5f)
            };
            nm + seq![32u8, 48u8, 120u8] + hex_of(code.subrange(i + 1, pend))
        } else {
            nm
        },
        None => unknown_name(),
    };
    prefix + body + seq![10u8]
}

/// The full disassembly of `code` from offset `i` on, one instruction per
/// line, PUSH immediates skipped.
pub open spec fn dis_text(code: Seq<u8>, i: int, verbose: bool) -> Seq<u8>
    decreases code.len() - i,
{
    if i < 0 || i >= code.len() {
        Seq::empty()
    } else {
        dis_line(code, i, verbose) + dis_text(
            code,
            crate::bytecode::scan_step(code, i),
            verbose,
        )
    }
}

/// Disassemble bytecode into one instruction per line. With `verbose`,
/// each line is prefixed by its zero-padded byte offset and `: `.
#[verifier::rlimit(60)]
pub fn disassemble(code: &[u8], verbose: bool) -> (r: Vec<u8>)
    ensures
        r@ == dis_text(code@, 0, verbose),
{
    let code_len = code.len();
    let mut out: Vec<u8> = Vec::new();
    proof {
        assert(Seq::<u8>::empty() + dis_text(code@, 0, verbose) =~= dis_text(
            code@,
            0,
            verbose,
        ));
    }
    let mut i: usize = 0;
    while i < code_len
        invariant
            i <= code_len,
            code_len == code@.len(),
            dis_text(code@, 0, verbose) == out@ + dis_text(code@, i as int, verbose),
        decreases code_len - i,
    {
        let op = code[i];
        let ghost prev = i as int;
        let ghost pre_out = out@;
        let mut line: Vec<u8> = Vec::new();
        if verbose {
            let mut d = dec_u4(i);
            line.append(&mut d);
            line.push(58);
            line.push(32);
        }
        match opcode_name(op) {
            Some(mut nm) => {
                line.append(&mut nm);
                if 0x5f <= op && op <= 0x7f {
                    line.push(32);
                    line.push(48);
                    line.push(120);
                    let n = (op - 0x5f) as usize;
                    let pend: usize = if code_len - (i + 1) < n {
                        code_len
                    } else {
                        i + 1 + n
                    };
                    let payload = vstd::slice::slice_subrange(code, i + 1, pend);
                    let mut h = hex_encode(payload);
                    line.append(&mut h);
                }
            },
            None => {
                line.push(85);
                line.push(78);
                line.push(75);
                line.push(78);
                line.push(79);
                line.push(87);
                line.push(78);
                proof {
                    assert(line@ =~= (if verbose {
                        pad4(dec_digits(prev as nat)) + seq![58u8, 32u8]
                    } else {
                        Seq::<u8>::empty()
                    }) + unknown_name());
                }
            },
        }
        line.push(10);
        proof {
            assert(line@ =~= dis_line(code@, prev, verbose));
        }
        out.append(&mut line);
        if op == 0x5b {
            i = i + 1;
        } else if 0x60 <= op && op <= 0x7f {
            let advance = (op - 0x5f) as usize + 1;
            if code_len - i <= advance {
                i = code_len;
            } else {
                i = i + advance;
            }
        } else {
            i = i + 1;
        }
        proof {
            assert(i as int == crate::bytecode::scan_step(code@, prev));
            assert(pre_out + (dis_line(code@, prev, verbose) + dis_text(
                code@,
                i as int,
                verbose,
            )) =~= out@ + dis_text(code@, i as int, verbose));
        }
    }
    proof {
        assert(out@ + Seq::<u8>::empty() =~= out@);
    }
    out
}

/// The value a decimal digit string spells.
pub open spec fn dec_val(s: Seq<u8>) -> nat
    decreases s.len(),
{
    if s.len() == 0 {
        0
    } else {
        (dec_val(s.drop_last()) * 10 + (s.last() - 0x30)) as nat
    }
}

/// Decimal digits are ASCII digits, and they spell the number back.
proof fn lemma_dec_digits_facts(n: nat)
    ensures
        dec_digits(n).len() >= 1,
        forall|j: int|
            0 <= j < dec_digits(n).len() ==> 0x30 <= #[trigger] dec_digits(n)[j] <= 0x39,
        dec_val(dec_digits(n)) == n,
    decreases n,
{
    if n < 10 {
        let d = dec_digits(n);
        assert(d.drop_last() =~= Seq::<u8>::empty());
        assert(dec_val(d.drop_last()) == 0);
        assert(d.last() == (0x30 + n) as u8);
        assert(dec_val(d) == n);
    } else {
        lemma_dec_digits_facts(n / 10);
        let d = dec_digits(n);
        assert(d.drop_last() =~= dec_digits(n / 10));
        assert(dec_val(d.drop_last()) == n / 10);
        assert(d.last() == (0x30 + n % 10) as u8);
        vstd::arithmetic::div_mod::lemma_fundamental_div_mod(n as int, 10);
        assert(dec_val(d) == n);
        assert forall|j: int| 0 <= j < dec_digits(n).len() implies 0x30
            <= #[trigger] dec_digits(n)[j] <= 0x39 by {
            if j < dec_digits(n).len() - 1 {
                assert(dec_digits(n)[j] == dec_digits(n / 10)[j]);
            }
        }
    }
}

/// The opcode a mnemonic decodes to, when it is one that `name_of` hands
/// out. Tokens that are no mnemonic may map anywhere; only the round trip
/// from `name_of` matters.
spec fn name_to_op(tok: Seq<u8>) -> Option<u8> {
    if tok == seq![83u8, 84u8, 79u8, 80u8] {
        Some(0x00u8)
    } else if tok == seq![65u8, 68u8, 68u8] {
        Some(0x01u8)
    } else if tok == seq![77u8, 85u8, 76u8] {
        Some(0x02u8)
    } else if tok == seq![83u8, 85u8, 66u8] {
        Some(0x03u8)
    } else if tok == seq![68u8, 73u8, 86u8] {
        Some(0x04u8)
    } else if tok == seq![76u8, 84u8] {
        Some(0x10u8)
    } else if tok == seq![71u8, 84u8] {
        Some(0x11u8)
    } else if tok == seq![83u8, 76u8, 84u8] {
        Some(0x12u8)
    } else if tok == seq![83u8, 71u8, 84u8] {
        Some(0x13u8)
    } else if tok == seq![69u8, 81u8] {
        Some(0x14u8)
    } else if tok == seq![73u8, 83u8, 90u8, 69u8, 82u8, 79u8] {
        Some(0x15u8)
    } else if tok == seq![65u8, 78u8, 68u8] {
        Some(0x16u8)
    } else if tok == seq![79u8, 82u8] {
        Some(0x17u8)
    } else if tok == seq![88u8, 79u8, 82u8] {
        Some(0x18u8)
    } else if tok == seq![78u8, 79u8, 84u8] {
        Some(0x19u8)
    } else if tok == seq![66u8, 89u8, 84u8, 69u8] {
        Some(0x1au8)
    } else if tok == seq![83u8, 72u8, 76u8] {
        Some(0x1bu8)
    } else if tok == seq![83u8, 72u8, 82u8] {
        Some(0x1cu8)
    } else if tok == seq![83u8, 65u8, 82u8] {
        Some(0x1du8)
    } else if tok == seq![67u8, 65u8, 76u8, 76u8, 68u8, 65u8, 84u8, 65u8, 76u8, 79u8, 65u8,
        68u8] {
        Some(0x35u8)
    } else if tok == seq![67u8, 65u8, 76u8, 76u8, 68u8, 65u8, 84u8, 65u8, 83u8, 73u8, 90u8,
        69u8] {
        Some(0x36u8)
    } else if tok == seq![67u8, 65u8, 76u8, 76u8, 68u8, 65u8, 84u8, 65u8, 67u8, 79u8, 80u8,
        89u8] {
        Some(0x37u8)
    } else if tok == seq![77u8, 76u8, 79u8, 65u8, 68u8] {
        Some(0x51u8)
    } else if tok == seq![77u8, 83u8, 84u8, 79u8, 82u8, 69u8] {
        Some(0x52u8)
    } else if tok == seq![77u8, 83u8, 84u8, 79u8, 82u8, 69u8, 56u8] {
        Some(0x53u8)
    } else if tok == seq![74u8, 85u8, 77u8, 80u8] {
        Some(0x56u8)
    } else if tok == seq![74u8, 85u8, 77u8, 80u8, 73u8] {
        Some(0x57u8)
    } else if tok == seq![80u8, 67u8] {
        Some(0x58u8)
    } else if tok == seq![77u8, 83u8, 73u8, 90u8, 69u8] {
        Some(0x59u8)
    } else if tok == seq![74u8, 85u8, 77u8, 80u8, 68u8, 69u8, 83u8, 84u8] {
        Some(0x5bu8)
    } else if tok == seq![82u8, 69u8, 84u8, 85u8, 82u8, 78u8] {
        Some(0xf3u8)
    } else if tok == seq![73u8, 78u8, 86u8, 65u8, 76u8, 73u8, 68u8] {
        Some(0xfeu8)
    } else if tok.len() > 4 && tok.take(4) == seq![80u8, 85u8, 83u8, 72u8] {
        Some((0x5f + dec_val(tok.skip(4)) % 0x100) as u8)
    } else if tok.len() > 3 && tok.take(3) == seq![68u8, 85u8, 80u8] {
        Some((0x7f + dec_val(tok.skip(3)) % 0x100) as u8)
    } else if tok.len() > 4 && tok.take(4) == seq![83u8, 87u8, 65u8, 80u8] {
        Some((0x8f + dec_val(tok.skip(4)) % 0x100) as u8)
    } else {
        None
    }
}

/// Every mnemonic decodes back to its own opcode: the name table is
/// injective.
proof fn lemma_name_decodes(op: u8)
    requires
        name_of(op) is Some,
    ensures
        name_to_op(name_of(op).unwrap()) == Some(op),
{
    let nm = name_of(op).unwrap();
    if 0x5f <= op && op <= 0x7f {
        lemma_dec_digits_facts((op - 0x5f) as nat);
        assert(nm.take(4) =~= seq![80u8, 85u8, 83u8, 72u8]);
        assert(nm.skip(4) =~= dec_digits((op - 0x5f) as nat));
    } else if 0x80 <= op && op <= 0x8f {
        lemma_dec_digits_facts((op - 0x7f) as nat);
        assert(nm.take(3) =~= seq![68u8, 85u8, 80u8]);
        assert(nm.skip(3) =~= dec_digits((op - 0x7f) as nat));
    } else if 0x90 <= op && op <= 0x9f {
        lemma_dec_digits_facts((op - 0x8f) as nat);
        assert(nm.take(4) =~= seq![83u8, 87u8, 65u8, 80u8]);
        assert(nm.skip(4) =~= dec_digits((op - 0x8f) as nat));
    }
}

/// The linear search over the opcode table finds the opcode of a
/// mnemonic.
proof fn lemma_search_from(tok: Seq<u8>, from: nat, op: u8)
    requires
        from <= op,
        name_of(op) == Some(tok),
        forall|q: u8| name_of(q) == Some(tok) ==> q == op,
    ensures
        opcode_search(tok, from) == Some(op),
    decreases 256 - from,
{
    if from < op {
        assert(name_of(from as u8) != Some(tok));
        lemma_search_from(tok, from + 1, op);
    }
}

/// Looking a mnemonic back up yields the opcode it names.
proof fn lemma_search_finds(op: u8)
    requires
        name_of(op) is Some,
    ensures
        opcode_search(name_of(op).unwrap(), 0) == Some(op),
{
    let tok = name_of(op).unwrap();
    lemma_name_decodes(op);
    assert forall|q: u8| name_of(q) == Some(tok) implies q == op by {
        lemma_name_decodes(q);
    }
    lemma_search_from(tok, 0, op);
}

/// Mnemonics are made of ASCII digits and uppercase letters: no
/// whitespace, no newline.
proof fn lemma_name_chars(op: u8)
    requires
        name_of(op) is Some,
    ensures
        name_of(op).unwrap().len() >= 1,
        forall|j: int|
            0 <= j < name_of(op).unwrap().len() ==> 0x30 <= #[trigger] name_of(
                op,
            ).unwrap()[j] <= 0x5a,
{
    let nm = name_of(op).unwrap();
    if 0x5f <= op && op <= 0x7f {
        lemma_dec_digits_facts((op - 0x5f) as nat);
        assert forall|j: int| 0 <= j < nm.len() implies 0x30 <= #[trigger] nm[j] <= 0x5a by {
            if j >= 4 {
                assert(nm[j] == dec_digits((op - 0x5f) as nat)[j - 4]);
            }
        }
    } else if 0x80 <= op && op <= 0x8f {
        lemma_dec_digits_facts((op - 0x7f) as nat);
        assert forall|j: int| 0 <= j < nm.len() implies 0x30 <= #[trigger] nm[j] <= 0x5a by {
            if j >= 3 {
                assert(nm[j] == dec_digits((op - 0x7f) as nat)[j - 3]);
            }
        }
    } else if 0x90 <= op && op <= 0x9f {
        lemma_dec_digits_facts((op - 0x8f) as nat);
        assert forall|j: int| 0 <= j < nm.len() implies 0x30 <= #[trigger] nm[j] <= 0x5a by {
            if j >= 4 {
                assert(nm[j] == dec_digits((op - 0x8f) as nat)[j - 4]);
            }
        }
    }
}

/// A whitespace-free, nonempty byte string is one whole token.
proof fn lemma_single_token(a: Seq<u8>)
    requires
        a.len() > 0,
        forall|i: int| 0 <= i < a.len() ==> !is_ws(#[trigger] a[i]),
    ensures
        tokens_of(a) == seq![a],
{
    lemma_ftl_concat(a, Seq::empty());
    assert(a + Seq::<u8>::empty() =~= a);
}

/// Two whitespace-free, nonempty byte strings joined by one space make
/// exactly two tokens.
proof fn lemma_two_tokens(a: Seq<u8>, b: Seq<u8>)
    requires
        a.len() > 0,
        b.len() > 0,
        forall|i: int| 0 <= i < a.len() ==> !is_ws(#[trigger] a[i]),
        forall|i: int| 0 <= i < b.len() ==> !is_ws(#[trigger] b[i]),
    ensures
        tokens_of(a + seq![0x20u8] + b) == seq![a, b],
{
    let s = a + seq![0x20u8] + b;
    let mid = seq![0x20u8] + b;
    assert(s =~= a + mid);
    lemma_ftl_concat(a, mid);
    assert(first_tok_len(s) == a.len());
    assert(s[0] == a[0]);
    assert(!is_ws(s[0]));
    assert(s.take(a.len() as int) =~= a);
    assert(s.skip(a.len() as int) =~= mid);
    assert(tokens_of(s) == seq![a] + tokens_of(mid));
    assert(is_ws(mid[0]));
    assert(mid.skip(1) =~= b);
    lemma_single_token(b);
    assert(tokens_of(mid) == seq![b]);
    assert(seq![a] + seq![b] =~= seq![a, b]);
}

/// A newline-free line followed by a newline and more text splits off as
/// one whole line.
proof fn lemma_one_line(a: Seq<u8>, rest: Seq<u8>)
    requires
        forall|i: int| 0 <= i < a.len() ==> !is_nl(#[trigger] a[i]),
    ensures
        lines_of(a + seq![10u8] + rest) == seq![a] + lines_of(rest),
{
    let s = a + seq![10u8] + rest;
    let mid = seq![10u8] + rest;
    assert(s =~= a + mid);
    lemma_fll_concat(a, mid);
    assert(first_line_len(s) == a.len());
    assert(s.len() > a.len());
    assert(s.take(a.len() as int) =~= a);
    assert(s.skip(a.len() as int + 1) =~= rest);
    assert(lines_of(s) == seq![a] + lines_of(rest));
}

/// Round trip through the hex codec: encoding any byte string gives a
/// valid hex body that decodes back to the same bytes.
pub proof fn lemma_hex_round_trip(b: Seq<u8>)
    ensures
        hex_valid(hex_of(b)),
        hex_bytes(hex_of(b)) == b,
{
    assert forall|i: int| 0 <= i < hex_of(b).len() implies is_hex_digit(
        #[trigger] hex_of(b)[i],
    ) by {
        assert(b[i / 2] as nat / 16 < 16);
        assert(b[i / 2] as nat % 16 < 16);
    }
    assert forall|i: int| 0 <= i < b.len() implies hex_bytes(hex_of(b))[i] == b[i] by {
        let h = hex_of(b);
        assert(h[2 * i] == hex_digit_of(b[i] as nat / 16));
        assert(h[2 * i + 1] == hex_digit_of(b[i] as nat % 16));
        assert(hex_digit_val(h[2 * i]) == b[i] as nat / 16);
        assert(hex_digit_val(h[2 * i + 1]) == b[i] as nat % 16);
    }
    assert(hex_bytes(hex_of(b)) =~= b);
}

/// Hex digits are never whitespace or newlines.
proof fn lemma_hex_digit_chars(c: u8)
    requires
        is_hex_digit(c),
    ensures
        !is_ws(c),
        !is_nl(c),
{
}

/// One step of the disassembly round trip: the line printed for the
/// instruction at `i` assembles back to exactly the bytes it describes.
#[verifier::rlimit(60)]
proof fn lemma_reassemble_from(code: Seq<u8>, i: int)
    requires
        0 <= i <= code.len(),
        forall|j: int|
            0 <= j < code.len() && visits(code, i, j) ==> name_of(#[trigger] code[j]) is Some,
        forall|j: int|
            0 <= j < code.len() && #[trigger] visits(code, i, j) && is_push_with_data(
                code[j],
            ) ==> j + 1 + (code[j] - 0x5f) <= code.len(),
    ensures
        asm_lines(lines_of(dis_text(code, i, false))) == Some(code.skip(i)),
    decreases code.len() - i,
{
    if i == code.len() {
        assert(code.skip(i) =~= Seq::<u8>::empty());
    } else {
        let op = code[i];
        assert(visits(code, i, i));
        let nm = name_of(op).unwrap();
        lemma_name_chars(op);
        let next = scan_step(code, i);
        assert(i < next <= code.len());
        assert forall|j: int| 0 <= j < code.len() && visits(code, next, j) implies name_of(
            #[trigger] code[j],
        ) is Some by {
            assert(visits(code, i, j));
        }
        assert forall|j: int|
            0 <= j < code.len() && #[trigger] visits(code, next, j) && is_push_with_data(
                code[j],
            ) implies j + 1 + (code[j] - 0x5f) <= code.len() by {
            assert(visits(code, i, j));
        }
        lemma_reassemble_from(code, next);
        let rest_text = dis_text(code, next, false);
        let line = dis_line(code, i, false);
        lemma_search_finds(op);
        if 0x5f <= op && op <= 0x7f {
            let n = op - 0x5f;
            assert(i + 1 + n <= code.len());
            assert(next == i + 1 + n);
            let payload = code.subrange(i + 1, i + 1 + n);
            let hextok = seq![0x30u8, 0x78u8] + hex_of(payload);
            let body = nm + seq![0x20u8] + hextok;
            assert(line =~= body + seq![10u8]);
            lemma_hex_round_trip(payload);
            assert forall|t: int| 0 <= t < hextok.len() implies !is_ws(#[trigger] hextok[t])
                && !is_nl(hextok[t]) by {
                if t >= 2 {
                    assert(hextok[t] == hex_of(payload)[t - 2]);
                    lemma_hex_digit_chars(hextok[t]);
                }
            }
            assert forall|t: int| 0 <= t < body.len() implies !is_nl(#[trigger] body[t]) by {
                if t < nm.len() {
                    assert(body[t] == nm[t]);
                } else if t > nm.len() {
                    assert(body[t] == hextok[t - nm.len() - 1]);
                }
            }
            lemma_one_line(body, rest_text);
            assert(body + seq![10u8] + rest_text =~= line + rest_text);
            assert(lines_of(dis_text(code, i, false)) == seq![body] + lines_of(rest_text));
            lemma_two_tokens(nm, hextok);
            assert(strip_hex_prefix(hextok) =~= hex_of(payload));
            assert(tokens_of(body)[0] == nm);
            assert(tokens_of(body)[1] == hextok);
            assert(line_bytes(body) == Some(seq![op] + payload));
            assert((seq![body] + lines_of(rest_text))[0] == body);
            assert((seq![body] + lines_of(rest_text)).skip(1) =~= lines_of(rest_text));
            assert((seq![op] + payload) + code.skip(next) =~= code.skip(i));
        } else {
            assert(next == i + 1);
            let body = nm;
            assert(line =~= body + seq![10u8]);
            lemma_one_line(body, rest_text);
            assert(body + seq![10u8] + rest_text =~= line + rest_text);
            assert(lines_of(dis_text(code, i, false)) == seq![body] + lines_of(rest_text));
            lemma_single_token(nm);
            assert(tokens_of(body)[0] == nm);
            assert(line_bytes(body) == Some(seq![op]));
            assert((seq![body] + lines_of(rest_text))[0] == body);
            assert((seq![body] + lines_of(rest_text)).skip(1) =~= lines_of(rest_text));
            assert(seq![op] + code.skip(next) =~= code.skip(i));
        }
    }
}

/// Round trip of the command-line pair: for code whose scanned
/// instructions are all implemented and whose PUSH payloads are not cut
/// off by the end of the code, assembling the disassembly yields exactly
/// the original bytes.
pub proof fn lemma_disassembly_reassembles(code: Seq<u8>)
    requires
        forall|j: int|
            0 <= j < code.len() && visits(code, 0, j) ==> name_of(#[trigger] code[j]) is Some,
        forall|j: int|
            0 <= j < code.len() && #[trigger] visits(code, 0, j) && is_push_with_data(
                code[j],
            ) ==> j + 1 + (code[j] - 0x5f) <= code.len(),
    ensures
        asm_lines(lines_of(dis_text(code, 0, false))) == Some(code),
{
    lemma_reassemble_from(code, 0);
    assert(code.skip(0) =~= code);
}

/// Turn bytecode into assembly text.
pub struct Disassemble {
    /// The hex string (ASCII bytes) of the bytecode to disassemble.
    pub code: Vec<u8>,
    /// Prefix instructions with their zero-padded decimal byte offset.
    pub verbose: bool,
}

impl Disassemble {
    /// Decode the hex code and disassemble it; nothing if the hex string
    /// is malformed.
    pub fn run(&self) -> (r: Option<Vec<u8>>)
        ensures
            r is Some <==> hex_valid(strip_hex_prefix(self.code@)),
            r matches Some(v) ==> v@ == dis_text(
                hex_bytes(strip_hex_prefix(self.code@)),
                0,
                self.verbose,
            ),
    {
        let bytes = match hex_decode(self.code.as_slice()) {
            Some(b) => b,
            None => {
                return None;
            },
        };
        Some(disassemble(bytes.as_slice(), self.verbose))
    }
}

/// Execute bytecode with a calldata input.
pub struct Run {
    /// The hex string (ASCII bytes) of the bytecode to run.
    pub code: Vec<u8>,
    /// The hex string (ASCII bytes) of the calldata passed as input.
    pub calldata: Vec<u8>,
}

impl Run {
    /// Decode the hex inputs, execute the code to a halt from a fresh
    /// interpreter at the zero address, and hand back the return buffer.
    /// Malformed code hex is rejected; malformed calldata hex runs with
    /// empty calldata.
    pub fn run(&self) -> (r: Result<Vec<u8>, EvmError>)
        ensures
            !hex_valid(strip_hex_prefix(self.code@)) ==> r == Err::<Vec<u8>, EvmError>(
                EvmError::InvalidOperand,
            ),
            ({
                let code = hex_bytes(strip_hex_prefix(self.code@));
                let cal = strip_hex_prefix(self.calldata@);
                let input = if hex_valid(cal) {
                    hex_bytes(cal)
                } else {
                    Seq::<u8>::empty()
                };
                hex_valid(strip_hex_prefix(self.code@)) && code.len() <= usize::MAX / 8
                    ==> exists|init: Interpreter, post: Interpreter|
                    fresh_for(init, code, input) && #[trigger] runs_to(
                        init,
                        post,
                        outcome_of(r),
                        u64::MAX as nat,
                    )
            }),
    {
        let code = match hex_decode(self.code.as_slice()) {
            Some(b) => b,
            None => {
                return Err(EvmError::InvalidOperand);
            },
        };
        if code.len() > usize::MAX / 8 || code.len() > usize::MAX - 33 {
            return Err(EvmError::InvalidOperand);
        }
        let input = match hex_decode(self.calldata.as_slice()) {
            Some(b) => b,
            None => Vec::new(),
        };
        let contract = Contract::new([0; 20], code, input);
        let mut interpreter = Interpreter::new(Box::new(contract));
        let ghost init = interpreter;
        let result = interpreter.execute();
        proof {
            let post = interpreter;
            assert(fresh_for(init, hex_bytes(strip_hex_prefix(self.code@)),
                init.contract.input@));
            assert(runs_to(init, post, outcome_of(result), u64::MAX as nat));
        }
        result
    }
}

} // verus!
