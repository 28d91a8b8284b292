//! The IDL parser: a recursive descent over the input bytes, one function
//! per grammar production. Each function takes the input and a position and
//! either yields the parsed value with the position after it, or says why
//! not. Every function's behaviour is stated against a sequence-level
//! mirror of the same production.

use vstd::prelude::*;
use vstd::utf8::{
    valid_utf8,
    decode_utf8,
    partial_valid_utf8,
    partial_valid_utf8_extend_ascii_block,
    is_leading_byte_width_1,
};
use vstd::string::StringSliceAdditionalSpecFns;

verus! {

broadcast use vstd::std_specs::vec::group_vec_axioms;

/// Why a production did not parse: the input did not match it, a keyword is
/// not one the grammar knows, a numeric literal does not fit its type or a
/// quoted literal is not text, or the input ended mid-construct.
#[derive(PartialEq, Eq, Structural, Debug, Clone, Copy)]
pub enum ParseError {
    Expected,
    UnknownKeyword,
    BadLiteral,
    UnexpectedEof,
}

/// What a production yields at a position: a value and the position after
/// it, or a failure.
pub enum PRes<T> {
    POk { v: T, end: int },
    PFail { err: ParseError },
}

// ---------------------------------------------------------------------------
// Bytes of the lexical grammar.
// ---------------------------------------------------------------------------

/// ASCII bytes are one-byte UTF-8.
pub proof fn lemma_ascii_valid_utf8(b: Seq<u8>)
    requires
        forall|i: int| 0 <= i < b.len() ==> b[i] < 0x80,
    ensures
        valid_utf8(b),
{
    assert forall|i: int| 0 <= 0 <= i < b.len() <= b.len() implies #[trigger] is_leading_byte_width_1(
        b[i],
    ) by {
        assert(b[i] < 0x80);
    }
    assert(b.subrange(0, 0) =~= Seq::<u8>::empty());
    assert(partial_valid_utf8(b, 0));
    partial_valid_utf8_extend_ascii_block(b, 0, b.len() as int);
    assert(b.subrange(0, b.len() as int) =~= b);
}

/// Turns a buffer of ASCII bytes into the string they spell.
pub(crate) fn ascii_to_string(v: Vec<u8>) -> (r: String)
    requires
        forall|i: int| 0 <= i < v@.len() ==> v@[i] < 0x80,
    ensures
        r@ == decode_utf8(v@),
{
    proof {
        lemma_ascii_valid_utf8(v@);
    }
    match crate::binary_protocol::bytes_to_string(v) {
        Ok(s) => s,
        // never taken: ASCII bytes are valid UTF-8
        Err(_) => String::new(),
    }
}

pub open spec fn is_ws(b: u8) -> bool {
    b == 32 || b == 9 || b == 10 || b == 13
}

pub open spec fn is_alpha(b: u8) -> bool {
    (65 <= b <= 90) || (97 <= b <= 122)
}

pub open spec fn is_digit(b: u8) -> bool {
    48 <= b <= 57
}

/// A byte that may continue an identifier.
pub open spec fn is_ident_tail(b: u8) -> bool {
    is_alpha(b) || is_digit(b) || b == 46 || b == 95
}

/// A byte that may begin an identifier.
pub open spec fn is_ident_head(b: u8) -> bool {
    is_alpha(b) || b == 95
}

fn ws_byte(b: u8) -> (r: bool)
    ensures
        r == is_ws(b),
{
    b == 32 || b == 9 || b == 10 || b == 13
}

fn alpha_byte(b: u8) -> (r: bool)
    ensures
        r == is_alpha(b),
{
    (65 <= b && b <= 90) || (97 <= b && b <= 122)
}

fn digit_byte(b: u8) -> (r: bool)
    ensures
        r == is_digit(b),
{
    48 <= b && b <= 57
}

fn ident_tail_byte(b: u8) -> (r: bool)
    ensures
        r == is_ident_tail(b),
{
    alpha_byte(b) || digit_byte(b) || b == 46 || b == 95
}

fn ident_head_byte(b: u8) -> (r: bool)
    ensures
        r == is_ident_head(b),
{
    alpha_byte(b) || b == 95
}

// ---------------------------------------------------------------------------
// Comments and blanks.
// ---------------------------------------------------------------------------

/// Where one comment at `pos` ends: a block comment runs to `*/`, a line
/// comment beginning `//` or `#` runs to the newline inclusive.
pub open spec fn spec_comment(input: Seq<u8>, pos: int) -> PRes<()>
    decreases input.len() - pos,
{
    if pos + 1 < input.len() && input[pos] == 47 && input[pos + 1] == 42 {
        spec_comment_block(input, pos + 2)
    } else if pos + 1 < input.len() && input[pos] == 47 && input[pos + 1] == 47 {
        spec_comment_line(input, pos + 2)
    } else if pos < input.len() && input[pos] == 35 {
        spec_comment_line(input, pos + 1)
    } else if pos >= input.len() || (input[pos] == 47 && pos + 1 >= input.len()) {
        PRes::PFail { err: ParseError::UnexpectedEof }
    } else {
        PRes::PFail { err: ParseError::Expected }
    }
}

/// Scans for the closing `*/`.
pub open spec fn spec_comment_block(input: Seq<u8>, pos: int) -> PRes<()>
    decreases input.len() - pos,
{
    if pos + 1 >= input.len() {
        PRes::PFail { err: ParseError::UnexpectedEof }
    } else if input[pos] == 42 && input[pos + 1] == 47 {
        PRes::POk { v: (), end: pos + 2 }
    } else {
        spec_comment_block(input, pos + 1)
    }
}

/// Scans for the newline, consuming it.
pub open spec fn spec_comment_line(input: Seq<u8>, pos: int) -> PRes<()>
    decreases input.len() - pos,
{
    if pos >= input.len() {
        PRes::PFail { err: ParseError::UnexpectedEof }
    } else if input[pos] == 10 {
        PRes::POk { v: (), end: pos + 1 }
    } else {
        spec_comment_line(input, pos + 1)
    }
}

/// Whitespace or comments, at least one of either, as many as stand here.
/// `spec_blank(input, pos)` is where they end; failing that, why not.
pub open spec fn spec_blank_step(input: Seq<u8>, pos: int) -> PRes<()> {
    if pos < input.len() && is_ws(input[pos]) {
        PRes::POk { v: (), end: pos + 1 }
    } else {
        spec_comment(input, pos)
    }
}

pub open spec fn spec_blank_more(input: Seq<u8>, pos: int) -> int
    decreases input.len() - pos,
{
    match spec_blank_step(input, pos) {
        PRes::POk { v: _, end } => {
            if pos < end <= input.len() {
                spec_blank_more(input, end)
            } else {
                pos
            }
        },
        PRes::PFail { err } => pos,
    }
}

pub open spec fn spec_blank(input: Seq<u8>, pos: int) -> PRes<()> {
    match spec_blank_step(input, pos) {
        PRes::POk { v: _, end } => PRes::POk { v: (), end: spec_blank_more(input, end) },
        PRes::PFail { err } => PRes::PFail { err },
    }
}

pub fn comment(input: &[u8], pos: usize) -> (r: Result<((), usize), ParseError>)
    requires
        pos <= input@.len(),
    ensures
        match spec_comment(input@, pos as int) {
            PRes::POk { v, end } => r matches Ok((u, e)) && e == end && pos < e <= input@.len(),
            PRes::PFail { err } => r == Err::<((), usize), ParseError>(err),
        },
{
    let n = input.len();
    if pos < n && pos + 1 < n && input[pos] == 47 && input[pos + 1] == 42 {
        let mut i = pos + 2;
        loop
            invariant
                pos + 2 <= i <= n,
                n == input@.len(),
                spec_comment(input@, pos as int) == spec_comment_block(input@, i as int),
            decreases n - i,
        {
            if i >= n || i + 1 >= n {
                return Err(ParseError::UnexpectedEof);
            }
            if input[i] == 42 && input[i + 1] == 47 {
                return Ok(((), i + 2));
            }
            i = i + 1;
        }
    } else if pos < n && pos + 1 < n && input[pos] == 47 && input[pos + 1] == 47 {
        let mut i = pos + 2;
        loop
            invariant
                pos + 2 <= i <= n,
                n == input@.len(),
                spec_comment(input@, pos as int) == spec_comment_line(input@, i as int),
            decreases n - i,
        {
            if i >= n {
                return Err(ParseError::UnexpectedEof);
            }
            if input[i] == 10 {
                return Ok(((), i + 1));
            }
            i = i + 1;
        }
    } else if pos < n && input[pos] == 35 {
        let mut i = pos + 1;
        loop
            invariant
                pos + 1 <= i <= n,
                n == input@.len(),
                spec_comment(input@, pos as int) == spec_comment_line(input@, i as int),
            decreases n - i,
        {
            if i >= n {
                return Err(ParseError::UnexpectedEof);
            }
            if input[i] == 10 {
                return Ok(((), i + 1));
            }
            i = i + 1;
        }
    } else if pos >= n || (input[pos] == 47 && pos + 1 >= n) {
        Err(ParseError::UnexpectedEof)
    } else {
        Err(ParseError::Expected)
    }
}

/// One blank step: a whitespace byte or a whole comment.
fn blank_step(input: &[u8], pos: usize) -> (r: Result<((), usize), ParseError>)
    requires
        pos <= input@.len(),
    ensures
        match spec_blank_step(input@, pos as int) {
            PRes::POk { v, end } => r matches Ok((u, e)) && e == end && pos < e <= input@.len(),
            PRes::PFail { err } => r == Err::<((), usize), ParseError>(err),
        },
{
    if pos < input.len() && ws_byte(input[pos]) {
        Ok(((), pos + 1))
    } else {
        comment(input, pos)
    }
}

pub fn blank(input: &[u8], pos: usize) -> (r: Result<((), usize), ParseError>)
    requires
        pos <= input@.len(),
    ensures
        match spec_blank(input@, pos as int) {
            PRes::POk { v, end } => r matches Ok((u, e)) && e == end && pos < e <= input@.len(),
            PRes::PFail { err } => r == Err::<((), usize), ParseError>(err),
        },
{
    let first = match blank_step(input, pos) {
        Ok((_, e)) => e,
        Err(e) => { return Err(e); },
    };
    let mut i = first;
    loop
        invariant
            pos < first <= i <= input@.len(),
            spec_blank(input@, pos as int) == (PRes::<()>::POk {
                v: (),
                end: spec_blank_more(input@, i as int),
            }),
        decreases input@.len() - i,
    {
        match blank_step(input, i) {
            Ok((_, e)) => {
                i = e;
            },
            Err(_) => {
                return Ok(((), i));
            },
        }
    }
}

/// Skips blank if any stands here; never fails.
fn opt_blank(input: &[u8], pos: usize) -> (r: usize)
    requires
        pos <= input@.len(),
    ensures
        r == spec_opt_blank(input@, pos as int),
        pos <= r <= input@.len(),
{
    match blank(input, pos) {
        Ok((_, e)) => e,
        Err(_) => pos,
    }
}

pub open spec fn spec_opt_blank(input: Seq<u8>, pos: int) -> int {
    match spec_blank(input, pos) {
        PRes::POk { v: _, end } => {
            if pos <= end <= input.len() {
                end
            } else {
                pos
            }
        },
        PRes::PFail { err } => pos,
    }
}

// ---------------------------------------------------------------------------
// Identifiers, literals, signs, integers, separators.
// ---------------------------------------------------------------------------

/// Where the identifier-tail bytes beginning at `pos` end.
pub open spec fn spec_ident_end(input: Seq<u8>, pos: int) -> int
    decreases input.len() - pos,
{
    if pos < input.len() && is_ident_tail(input[pos]) {
        spec_ident_end(input, pos + 1)
    } else {
        pos
    }
}

/// An identifier: a letter or underscore, then letters, digits, dots and
/// underscores; its value is the text consumed.
pub open spec fn spec_identifier(input: Seq<u8>, pos: int) -> PRes<Seq<char>> {
    if pos >= input.len() {
        PRes::PFail { err: ParseError::UnexpectedEof }
    } else if !is_ident_head(input[pos]) {
        PRes::PFail { err: ParseError::Expected }
    } else {
        let end = spec_ident_end(input, pos + 1);
        PRes::POk { v: decode_utf8(input.subrange(pos, end)), end }
    }
}

pub fn identifier(input: &[u8], pos: usize) -> (r: Result<(String, usize), ParseError>)
    requires
        pos <= input@.len(),
    ensures
        match spec_identifier(input@, pos as int) {
            PRes::POk { v, end } => r matches Ok((s, e)) && s@ == v && e == end && pos < e
                <= input@.len(),
            PRes::PFail { err } => r == Err::<(String, usize), ParseError>(err),
        },
{
    let n = input.len();
    if pos >= n {
        return Err(ParseError::UnexpectedEof);
    }
    if !ident_head_byte(input[pos]) {
        return Err(ParseError::Expected);
    }
    let mut i = pos + 1;
    let mut buf: Vec<u8> = Vec::new();
    buf.push(input[pos]);
    proof {
        assert(buf@ =~= input@.subrange(pos as int, pos + 1));
    }
    loop
        invariant
            pos + 1 <= i <= n,
            n == input@.len(),
            buf@ == input@.subrange(pos as int, i as int),
            is_ident_head(input@[pos as int]),
            forall|j: int| pos <= j < i ==> is_ident_tail(#[trigger] input@[j]) || j == pos,
            spec_ident_end(input@, pos + 1) == spec_ident_end(input@, i as int),
        decreases n - i,
    {
        if i < n && ident_tail_byte(input[i]) {
            buf.push(input[i]);
            proof {
                assert(buf@ =~= input@.subrange(pos as int, i + 1));
            }
            i = i + 1;
        } else {
            proof {
                assert(spec_ident_end(input@, i as int) == i as int);
                assert forall|j: int| 0 <= j < buf@.len() implies buf@[j] < 0x80 by {
                    assert(buf@[j] == input@[pos + j]);
                }
            }
            let s = ascii_to_string(buf);
            return Ok((s, i));
        }
    }
}

/// A quoted string: bytes between two matching double or single quotes,
/// with no escape processing; at least one byte, and the bytes must be text.
pub open spec fn spec_find_byte(input: Seq<u8>, pos: int, target: u8) -> int
    decreases input.len() - pos,
{
    if pos >= input.len() {
        input.len() as int
    } else if input[pos] == target {
        pos
    } else {
        spec_find_byte(input, pos + 1, target)
    }
}

pub open spec fn spec_literal(input: Seq<u8>, pos: int) -> PRes<Seq<char>> {
    if pos >= input.len() {
        PRes::PFail { err: ParseError::UnexpectedEof }
    } else if input[pos] == 34 || input[pos] == 39 {
        let q = spec_find_byte(input, pos + 1, input[pos]);
        if q >= input.len() {
            PRes::PFail { err: ParseError::UnexpectedEof }
        } else if q == pos + 1 {
            PRes::PFail { err: ParseError::Expected }
        } else {
            let body = input.subrange(pos + 1, q);
            if valid_utf8(body) {
                PRes::POk { v: decode_utf8(body), end: q + 1 }
            } else {
                PRes::PFail { err: ParseError::BadLiteral }
            }
        }
    } else {
        PRes::PFail { err: ParseError::Expected }
    }
}

pub fn literal(input: &[u8], pos: usize) -> (r: Result<(String, usize), ParseError>)
    requires
        pos <= input@.len(),
    ensures
        match spec_literal(input@, pos as int) {
            PRes::POk { v, end } => r matches Ok((s, e)) && s@ == v && e == end && pos < e
                <= input@.len(),
            PRes::PFail { err } => r == Err::<(String, usize), ParseError>(err),
        },
{
    let n = input.len();
    if pos >= n {
        return Err(ParseError::UnexpectedEof);
    }
    let quote = input[pos];
    if !(quote == 34 || quote == 39) {
        return Err(ParseError::Expected);
    }
    let mut i = pos + 1;
    let mut buf: Vec<u8> = Vec::new();
    proof {
        assert(buf@ =~= input@.subrange(pos + 1, pos + 1));
    }
    loop
        invariant
            pos + 1 <= i <= n,
            n == input@.len(),
            pos < n,
            quote == input@[pos as int],
            quote == 34 || quote == 39,
            buf@ == input@.subrange(pos + 1, i as int),
            spec_find_byte(input@, pos + 1, quote) == spec_find_byte(input@, i as int, quote),
        decreases n - i,
    {
        if i >= n {
            return Err(ParseError::UnexpectedEof);
        }
        if input[i] == quote {
            if i == pos + 1 {
                return Err(ParseError::Expected);
            }
            match crate::binary_protocol::bytes_to_string(buf) {
                Ok(s) => {
                    return Ok((s, i + 1));
                },
                Err(_) => {
                    return Err(ParseError::BadLiteral);
                },
            }
        }
        buf.push(input[i]);
        proof {
            assert(buf@ =~= input@.subrange(pos + 1, i + 1));
        }
        i = i + 1;
    }
}

/// A sign: `+` or `-`; the value says whether it was the minus.
pub open spec fn spec_sgn(input: Seq<u8>, pos: int) -> PRes<bool> {
    if pos >= input.len() {
        PRes::PFail { err: ParseError::UnexpectedEof }
    } else if input[pos] == 43 {
        PRes::POk { v: false, end: pos + 1 }
    } else if input[pos] == 45 {
        PRes::POk { v: true, end: pos + 1 }
    } else {
        PRes::PFail { err: ParseError::Expected }
    }
}

pub fn sgn(input: &[u8], pos: usize) -> (r: Result<(bool, usize), ParseError>)
    requires
        pos <= input@.len(),
    ensures
        match spec_sgn(input@, pos as int) {
            PRes::POk { v, end } => r matches Ok((b, e)) && b == v && e == end && pos < e
                <= input@.len(),
            PRes::PFail { err } => r == Err::<(bool, usize), ParseError>(err),
        },
{
    if pos >= input.len() {
        Err(ParseError::UnexpectedEof)
    } else if input[pos] == 43 {
        Ok((false, pos + 1))
    } else if input[pos] == 45 {
        Ok((true, pos + 1))
    } else {
        Err(ParseError::Expected)
    }
}

/// Where the digits beginning at `pos` end.
pub open spec fn spec_digits_end(input: Seq<u8>, pos: int) -> int
    decreases input.len() - pos,
{
    if pos < input.len() && is_digit(input[pos]) {
        spec_digits_end(input, pos + 1)
    } else {
        pos
    }
}

/// The number a string of decimal digits spells.
pub open spec fn spec_digits_val(s: Seq<u8>) -> int
    decreases s.len(),
{
    if s.len() == 0 {
        0
    } else {
        spec_digits_val(s.take(s.len() - 1)) * 10 + (s[s.len() - 1] - 48)
    }
}

/// Digit scanning stays within the input and never moves backwards.
proof fn lemma_digits_end_bounds(input: Seq<u8>, pos: int)
    requires
        0 <= pos <= input.len(),
    ensures
        pos <= spec_digits_end(input, pos) <= input.len(),
    decreases input.len() - pos,
{
    if pos < input.len() && is_digit(input[pos]) {
        lemma_digits_end_bounds(input, pos + 1);
    }
}

/// A digit string's value never shrinks as digits are appended.
proof fn lemma_digits_val_nonneg(s: Seq<u8>)
    requires
        forall|i: int| 0 <= i < s.len() ==> is_digit(#[trigger] s[i]),
    ensures
        spec_digits_val(s) >= 0,
    decreases s.len(),
{
    if s.len() > 0 {
        lemma_digits_val_nonneg(s.take(s.len() - 1));
    }
}

/// A decimal integer with an optional sign, rejected when it does not fit a
/// 64-bit signed value.
pub open spec fn spec_int_constant(input: Seq<u8>, pos: int) -> PRes<i64> {
    let sp = spec_sgn(input, pos);
    let neg = match sp {
        PRes::POk { v, end } => v,
        PRes::PFail { err } => false,
    };
    let dstart = match sp {
        PRes::POk { v, end } => end,
        PRes::PFail { err } => pos,
    };
    if dstart >= input.len() {
        PRes::PFail { err: ParseError::UnexpectedEof }
    } else if !is_digit(input[dstart]) {
        PRes::PFail { err: ParseError::Expected }
    } else {
        let dend = spec_digits_end(input, dstart);
        let m = spec_digits_val(input.subrange(dstart, dend));
        let val = if neg {
            -m
        } else {
            m
        };
        if -0x8000_0000_0000_0000 <= val <= 0x7fff_ffff_ffff_ffff {
            PRes::POk { v: val as i64, end: dend }
        } else {
            PRes::PFail { err: ParseError::BadLiteral }
        }
    }
}

pub fn int_constant(input: &[u8], pos: usize) -> (r: Result<(i64, usize), ParseError>)
    requires
        pos <= input@.len(),
    ensures
        match spec_int_constant(input@, pos as int) {
            PRes::POk { v, end } => r matches Ok((x, e)) && x == v && e == end && pos < e
                <= input@.len(),
            PRes::PFail { err } => r == Err::<(i64, usize), ParseError>(err),
        },
{
    let n = input.len();
    let (neg, dstart) = match sgn(input, pos) {
        Ok((b, e)) => (b, e),
        Err(_) => (false, pos),
    };
    if dstart >= n {
        return Err(ParseError::UnexpectedEof);
    }
    if !digit_byte(input[dstart]) {
        return Err(ParseError::Expected);
    }
    let ghost dend = spec_digits_end(input@, dstart as int);
    let mut i = dstart;
    let mut mag: u64 = 0;
    let mut over: bool = false;
    loop
        invariant
            dstart <= i <= n,
            n == input@.len(),
            pos <= dstart < n,
            match spec_sgn(input@, pos as int) {
                PRes::POk { v, end } => neg == v && dstart == end,
                PRes::PFail { err } => neg == false && dstart == pos,
            },
            is_digit(input@[dstart as int]),
            dend == spec_digits_end(input@, dstart as int),
            spec_digits_end(input@, i as int) == dend || i == dstart,
            forall|k: int| dstart <= k < i ==> is_digit(#[trigger] input@[k]),
            !over ==> mag == spec_digits_val(input@.subrange(dstart as int, i as int)),
            over ==> spec_digits_val(input@.subrange(dstart as int, i as int))
                > 0xffff_ffff_ffff_ffff,
        decreases n - i,
    {
        if i < n && digit_byte(input[i]) {
            let d = (input[i] - 48) as u64;
            proof {
                assert(input@.subrange(dstart as int, i + 1).take(i - dstart) =~= input@.subrange(
                    dstart as int,
                    i as int,
                ));
                lemma_digits_val_nonneg(input@.subrange(dstart as int, i as int));
            }
            if !over {
                mag = match mag.checked_mul(10) {
                    Some(x) => match x.checked_add(d) {
                        Some(y) => y,
                        None => {
                            over = true;
                            0
                        },
                    },
                    None => {
                        over = true;
                        0
                    },
                };
            }
            i = i + 1;
        } else {
            proof {
                assert(spec_digits_end(input@, i as int) == i as int);
                assert(dend == i as int);
                lemma_digits_end_bounds(input@, dstart + 1);
            }
            if over {
                return Err(ParseError::BadLiteral);
            }
            if neg {
                if mag <= 0x7fff_ffff_ffff_ffff {
                    return Ok((-(mag as i64), i));
                } else if mag == 0x8000_0000_0000_0000 {
                    return Ok((-0x7fff_ffff_ffff_ffff - 1, i));
                } else {
                    return Err(ParseError::BadLiteral);
                }
            } else {
                if mag <= 0x7fff_ffff_ffff_ffff {
                    return Ok((mag as i64, i));
                } else {
                    return Err(ParseError::BadLiteral);
                }
            }
        }
    }
}

/// A list separator: a comma or a semicolon.
pub open spec fn spec_list_separator(input: Seq<u8>, pos: int) -> PRes<()> {
    if pos >= input.len() {
        PRes::PFail { err: ParseError::UnexpectedEof }
    } else if input[pos] == 44 || input[pos] == 59 {
        PRes::POk { v: (), end: pos + 1 }
    } else {
        PRes::PFail { err: ParseError::Expected }
    }
}

pub fn list_separator(input: &[u8], pos: usize) -> (r: Result<((), usize), ParseError>)
    requires
        pos <= input@.len(),
    ensures
        match spec_list_separator(input@, pos as int) {
            PRes::POk { v, end } => r matches Ok((u, e)) && e == end && pos < e <= input@.len(),
            PRes::PFail { err } => r == Err::<((), usize), ParseError>(err),
        },
{
    if pos >= input.len() {
        Err(ParseError::UnexpectedEof)
    } else if input[pos] == 44 || input[pos] == 59 {
        Ok(((), pos + 1))
    } else {
        Err(ParseError::Expected)
    }
}

// ---------------------------------------------------------------------------
// Keywords and single-byte tokens.
// ---------------------------------------------------------------------------

/// The bytes `kw` stand at `pos`.
pub open spec fn spec_tag(input: Seq<u8>, pos: int, kw: Seq<u8>) -> bool {
    pos + kw.len() <= input.len() && input.subrange(pos, pos + kw.len()) == kw
}

/// One byte `c` stands at `pos`; consuming it.
pub open spec fn spec_ch(input: Seq<u8>, pos: int, c: u8) -> PRes<()> {
    if pos >= input.len() {
        PRes::PFail { err: ParseError::UnexpectedEof }
    } else if input[pos] == c {
        PRes::POk { v: (), end: pos + 1 }
    } else {
        PRes::PFail { err: ParseError::Expected }
    }
}

fn ch(input: &[u8], pos: usize, c: u8) -> (r: Result<((), usize), ParseError>)
    requires
        pos <= input@.len(),
    ensures
        match spec_ch(input@, pos as int, c) {
            PRes::POk { v, end } => r matches Ok((u, e)) && e == end && pos < e <= input@.len(),
            PRes::PFail { err } => r == Err::<((), usize), ParseError>(err),
        },
{
    if pos >= input.len() {
        Err(ParseError::UnexpectedEof)
    } else if input[pos] == c {
        Ok(((), pos + 1))
    } else {
        Err(ParseError::Expected)
    }
}


pub open spec fn kw_bool() -> Seq<u8> {
    seq![98u8, 111u8, 111u8, 108u8]
}

fn tag_bool(input: &[u8], pos: usize) -> (r: bool)
    requires
        pos <= input@.len(),
    ensures
        r == spec_tag(input@, pos as int, kw_bool()),
{
    let n = input.len();
    if n - pos >= 4 && input[pos + 0] == 98 && input[pos + 1] == 111 && input[pos + 2] == 111 && input[pos + 3] == 108 {
        proof {
            assert(input@.subrange(pos as int, pos + 4) =~= kw_bool());
        }
        true
    } else {
        proof {
            if spec_tag(input@, pos as int, kw_bool()) {
                assert(forall|k: int| 0 <= k < 4 ==> input@.subrange(pos as int, pos + 4)[k]
                    == kw_bool()[k]);
            }
        }
        false
    }
}


pub open spec fn kw_byte() -> Seq<u8> {
    seq![98u8, 121u8, 116u8, 101u8]
}

fn tag_byte(input: &[u8], pos: usize) -> (r: bool)
    requires
        pos <= input@.len(),
    ensures
        r == spec_tag(input@, pos as int, kw_byte()),
{
    let n = input.len();
    if n - pos >= 4 && input[pos + 0] == 98 && input[pos + 1] == 121 && input[pos + 2] == 116 && input[pos + 3] == 101 {
        proof {
            assert(input@.subrange(pos as int, pos + 4) =~= kw_byte());
        }
        true
    } else {
        proof {
            if spec_tag(input@, pos as int, kw_byte()) {
                assert(forall|k: int| 0 <= k < 4 ==> input@.subrange(pos as int, pos + 4)[k]
                    == kw_byte()[k]);
            }
        }
        false
    }
}


pub open spec fn kw_i8() -> Seq<u8> {
    seq![105u8, 56u8]
}

fn tag_i8(input: &[u8], pos: usize) -> (r: bool)
    requires
        pos <= input@.len(),
    ensures
        r == spec_tag(input@, pos as int, kw_i8()),
{
    let n = input.len();
    if n - pos >= 2 && input[pos + 0] == 105 && input[pos + 1] == 56 {
        proof {
            assert(input@.subrange(pos as int, pos + 2) =~= kw_i8());
        }
        true
    } else {
        proof {
            if spec_tag(input@, pos as int, kw_i8()) {
                assert(forall|k: int| 0 <= k < 2 ==> input@.subrange(pos as int, pos + 2)[k]
                    == kw_i8()[k]);
            }
        }
        false
    }
}


pub open spec fn kw_i16() -> Seq<u8> {
    seq![105u8, 49u8, 54u8]
}

fn tag_i16(input: &[u8], pos: usize) -> (r: bool)
    requires
        pos <= input@.len(),
    ensures
        r == spec_tag(input@, pos as int, kw_i16()),
{
    let n = input.len();
    if n - pos >= 3 && input[pos + 0] == 105 && input[pos + 1] == 49 && input[pos + 2] == 54 {
        proof {
            assert(input@.subrange(pos as int, pos + 3) =~= kw_i16());
        }
        true
    } else {
        proof {
            if spec_tag(input@, pos as int, kw_i16()) {
                assert(forall|k: int| 0 <= k < 3 ==> input@.subrange(pos as int, pos + 3)[k]
                    == kw_i16()[k]);
            }
        }
        false
    }
}


pub open spec fn kw_i32() -> Seq<u8> {
    seq![105u8, 51u8, 50u8]
}

fn tag_i32(input: &[u8], pos: usize) -> (r: bool)
    requires
        pos <= input@.len(),
    ensures
        r == spec_tag(input@, pos as int, kw_i32()),
{
    let n = input.len();
    if n - pos >= 3 && input[pos + 0] == 105 && input[pos + 1] == 51 && input[pos + 2] == 50 {
        proof {
            assert(input@.subrange(pos as int, pos + 3) =~= kw_i32());
        }
        true
    } else {
        proof {
            if spec_tag(input@, pos as int, kw_i32()) {
                assert(forall|k: int| 0 <= k < 3 ==> input@.subrange(pos as int, pos + 3)[k]
                    == kw_i32()[k]);
            }
        }
        false
    }
}


pub open spec fn kw_i64() -> Seq<u8> {
    seq![105u8, 54u8, 52u8]
}

fn tag_i64(input: &[u8], pos: usize) -> (r: bool)
    requires
        pos <= input@.len(),
    ensures
        r == spec_tag(input@, pos as int, kw_i64()),
{
    let n = input.len();
    if n - pos >= 3 && input[pos + 0] == 105 && input[pos + 1] == 54 && input[pos + 2] == 52 {
        proof {
            assert(input@.subrange(pos as int, pos + 3) =~= kw_i64());
        }
        true
    } else {
        proof {
            if spec_tag(input@, pos as int, kw_i64()) {
                assert(forall|k: int| 0 <= k < 3 ==> input@.subrange(pos as int, pos + 3)[k]
                    == kw_i64()[k]);
            }
        }
        false
    }
}


pub open spec fn kw_double() -> Seq<u8> {
    seq![100u8, 111u8, 117u8, 98u8, 108u8, 101u8]
}

fn tag_double(input: &[u8], pos: usize) -> (r: bool)
    requires
        pos <= input@.len(),
    ensures
        r == spec_tag(input@, pos as int, kw_double()),
{
    let n = input.len();
    if n - pos >= 6 && input[pos + 0] == 100 && input[pos + 1] == 111 && input[pos + 2] == 117 && input[pos + 3] == 98 && input[pos + 4] == 108 && input[pos + 5] == 101 {
        proof {
            assert(input@.subrange(pos as int, pos + 6) =~= kw_double());
        }
        true
    } else {
        proof {
            if spec_tag(input@, pos as int, kw_double()) {
                assert(forall|k: int| 0 <= k < 6 ==> input@.subrange(pos as int, pos + 6)[k]
                    == kw_double()[k]);
            }
        }
        false
    }
}


pub open spec fn kw_string() -> Seq<u8> {
    seq![115u8, 116u8, 114u8, 105u8, 110u8, 103u8]
}

fn tag_string(input: &[u8], pos: usize) -> (r: bool)
    requires
        pos <= input@.len(),
    ensures
        r == spec_tag(input@, pos as int, kw_string()),
{
    let n = input.len();
    if n - pos >= 6 && input[pos + 0] == 115 && input[pos + 1] == 116 && input[pos + 2] == 114 && input[pos + 3] == 105 && input[pos + 4] == 110 && input[pos + 5] == 103 {
        proof {
            assert(input@.subrange(pos as int, pos + 6) =~= kw_string());
        }
        true
    } else {
        proof {
            if spec_tag(input@, pos as int, kw_string()) {
                assert(forall|k: int| 0 <= k < 6 ==> input@.subrange(pos as int, pos + 6)[k]
                    == kw_string()[k]);
            }
        }
        false
    }
}


pub open spec fn kw_binary() -> Seq<u8> {
    seq![98u8, 105u8, 110u8, 97u8, 114u8, 121u8]
}

fn tag_binary(input: &[u8], pos: usize) -> (r: bool)
    requires
        pos <= input@.len(),
    ensures
        r == spec_tag(input@, pos as int, kw_binary()),
{
    let n = input.len();
    if n - pos >= 6 && input[pos + 0] == 98 && input[pos + 1] == 105 && input[pos + 2] == 110 && input[pos + 3] == 97 && input[pos + 4] == 114 && input[pos + 5] == 121 {
        proof {
            assert(input@.subrange(pos as int, pos + 6) =~= kw_binary());
        }
        true
    } else {
        proof {
            if spec_tag(input@, pos as int, kw_binary()) {
                assert(forall|k: int| 0 <= k < 6 ==> input@.subrange(pos as int, pos + 6)[k]
                    == kw_binary()[k]);
            }
        }
        false
    }
}


pub open spec fn kw_map() -> Seq<u8> {
    seq![109u8, 97u8, 112u8]
}

fn tag_map(input: &[u8], pos: usize) -> (r: bool)
    requires
        pos <= input@.len(),
    ensures
        r == spec_tag(input@, pos as int, kw_map()),
{
    let n = input.len();
    if n - pos >= 3 && input[pos + 0] == 109 && input[pos + 1] == 97 && input[pos + 2] == 112 {
        proof {
            assert(input@.subrange(pos as int, pos + 3) =~= kw_map());
        }
        true
    } else {
        proof {
            if spec_tag(input@, pos as int, kw_map()) {
                assert(forall|k: int| 0 <= k < 3 ==> input@.subrange(pos as int, pos + 3)[k]
                    == kw_map()[k]);
            }
        }
        false
    }
}


pub open spec fn kw_set() -> Seq<u8> {
    seq![115u8, 101u8, 116u8]
}

fn tag_set(input: &[u8], pos: usize) -> (r: bool)
    requires
        pos <= input@.len(),
    ensures
        r == spec_tag(input@, pos as int, kw_set()),
{
    let n = input.len();
    if n - pos >= 3 && input[pos + 0] == 115 && input[pos + 1] == 101 && input[pos + 2] == 116 {
        proof {
            assert(input@.subrange(pos as int, pos + 3) =~= kw_set());
        }
        true
    } else {
        proof {
            if spec_tag(input@, pos as int, kw_set()) {
                assert(forall|k: int| 0 <= k < 3 ==> input@.subrange(pos as int, pos + 3)[k]
                    == kw_set()[k]);
            }
        }
        false
    }
}


pub open spec fn kw_list() -> Seq<u8> {
    seq![108u8, 105u8, 115u8, 116u8]
}

fn tag_list(input: &[u8], pos: usize) -> (r: bool)
    requires
        pos <= input@.len(),
    ensures
        r == spec_tag(input@, pos as int, kw_list()),
{
    let n = input.len();
    if n - pos >= 4 && input[pos + 0] == 108 && input[pos + 1] == 105 && input[pos + 2] == 115 && input[pos + 3] == 116 {
        proof {
            assert(input@.subrange(pos as int, pos + 4) =~= kw_list());
        }
        true
    } else {
        proof {
            if spec_tag(input@, pos as int, kw_list()) {
                assert(forall|k: int| 0 <= k < 4 ==> input@.subrange(pos as int, pos + 4)[k]
                    == kw_list()[k]);
            }
        }
        false
    }
}


pub open spec fn kw_void() -> Seq<u8> {
    seq![118u8, 111u8, 105u8, 100u8]
}

fn tag_void(input: &[u8], pos: usize) -> (r: bool)
    requires
        pos <= input@.len(),
    ensures
        r == spec_tag(input@, pos as int, kw_void()),
{
    let n = input.len();
    if n - pos >= 4 && input[pos + 0] == 118 && input[pos + 1] == 111 && input[pos + 2] == 105 && input[pos + 3] == 100 {
        proof {
            assert(input@.subrange(pos as int, pos + 4) =~= kw_void());
        }
        true
    } else {
        proof {
            if spec_tag(input@, pos as int, kw_void()) {
                assert(forall|k: int| 0 <= k < 4 ==> input@.subrange(pos as int, pos + 4)[k]
                    == kw_void()[k]);
            }
        }
        false
    }
}


pub open spec fn kw_include() -> Seq<u8> {
    seq![105u8, 110u8, 99u8, 108u8, 117u8, 100u8, 101u8]
}

fn tag_include(input: &[u8], pos: usize) -> (r: bool)
    requires
        pos <= input@.len(),
    ensures
        r == spec_tag(input@, pos as int, kw_include()),
{
    let n = input.len();
    if n - pos >= 7 && input[pos + 0] == 105 && input[pos + 1] == 110 && input[pos + 2] == 99 && input[pos + 3] == 108 && input[pos + 4] == 117 && input[pos + 5] == 100 && input[pos + 6] == 101 {
        proof {
            assert(input@.subrange(pos as int, pos + 7) =~= kw_include());
        }
        true
    } else {
        proof {
            if spec_tag(input@, pos as int, kw_include()) {
                assert(forall|k: int| 0 <= k < 7 ==> input@.subrange(pos as int, pos + 7)[k]
                    == kw_include()[k]);
            }
        }
        false
    }
}


pub open spec fn kw_namespace() -> Seq<u8> {
    seq![110u8, 97u8, 109u8, 101u8, 115u8, 112u8, 97u8, 99u8, 101u8]
}

fn tag_namespace(input: &[u8], pos: usize) -> (r: bool)
    requires
        pos <= input@.len(),
    ensures
        r == spec_tag(input@, pos as int, kw_namespace()),
{
    let n = input.len();
    if n - pos >= 9 && input[pos + 0] == 110 && input[pos + 1] == 97 && input[pos + 2] == 109 && input[pos + 3] == 101 && input[pos + 4] == 115 && input[pos + 5] == 112 && input[pos + 6] == 97 && input[pos + 7] == 99 && input[pos + 8] == 101 {
        proof {
            assert(input@.subrange(pos as int, pos + 9) =~= kw_namespace());
        }
        true
    } else {
        proof {
            if spec_tag(input@, pos as int, kw_namespace()) {
                assert(forall|k: int| 0 <= k < 9 ==> input@.subrange(pos as int, pos + 9)[k]
                    == kw_namespace()[k]);
            }
        }
        false
    }
}


pub open spec fn kw_const() -> Seq<u8> {
    seq![99u8, 111u8, 110u8, 115u8, 116u8]
}

fn tag_const(input: &[u8], pos: usize) -> (r: bool)
    requires
        pos <= input@.len(),
    ensures
        r == spec_tag(input@, pos as int, kw_const()),
{
    let n = input.len();
    if n - pos >= 5 && input[pos + 0] == 99 && input[pos + 1] == 111 && input[pos + 2] == 110 && input[pos + 3] == 115 && input[pos + 4] == 116 {
        proof {
            assert(input@.subrange(pos as int, pos + 5) =~= kw_const());
        }
        true
    } else {
        proof {
            if spec_tag(input@, pos as int, kw_const()) {
                assert(forall|k: int| 0 <= k < 5 ==> input@.subrange(pos as int, pos + 5)[k]
                    == kw_const()[k]);
            }
        }
        false
    }
}


pub open spec fn kw_typedef() -> Seq<u8> {
    seq![116u8, 121u8, 112u8, 101u8, 100u8, 101u8, 102u8]
}

fn tag_typedef(input: &[u8], pos: usize) -> (r: bool)
    requires
        pos <= input@.len(),
    ensures
        r == spec_tag(input@, pos as int, kw_typedef()),
{
    let n = input.len();
    if n - pos >= 7 && input[pos + 0] == 116 && input[pos + 1] == 121 && input[pos + 2] == 112 && input[pos + 3] == 101 && input[pos + 4] == 100 && input[pos + 5] == 101 && input[pos + 6] == 102 {
        proof {
            assert(input@.subrange(pos as int, pos + 7) =~= kw_typedef());
        }
        true
    } else {
        proof {
            if spec_tag(input@, pos as int, kw_typedef()) {
                assert(forall|k: int| 0 <= k < 7 ==> input@.subrange(pos as int, pos + 7)[k]
                    == kw_typedef()[k]);
            }
        }
        false
    }
}


pub open spec fn kw_enum() -> Seq<u8> {
    seq![101u8, 110u8, 117u8, 109u8]
}

fn tag_enum(input: &[u8], pos: usize) -> (r: bool)
    requires
        pos <= input@.len(),
    ensures
        r == spec_tag(input@, pos as int, kw_enum()),
{
    let n = input.len();
    if n - pos >= 4 && input[pos + 0] == 101 && input[pos + 1] == 110 && input[pos + 2] == 117 && input[pos + 3] == 109 {
        proof {
            assert(input@.subrange(pos as int, pos + 4) =~= kw_enum());
        }
        true
    } else {
        proof {
            if spec_tag(input@, pos as int, kw_enum()) {
                assert(forall|k: int| 0 <= k < 4 ==> input@.subrange(pos as int, pos + 4)[k]
                    == kw_enum()[k]);
            }
        }
        false
    }
}


pub open spec fn kw_struct() -> Seq<u8> {
    seq![115u8, 116u8, 114u8, 117u8, 99u8, 116u8]
}

fn tag_struct(input: &[u8], pos: usize) -> (r: bool)
    requires
        pos <= input@.len(),
    ensures
        r == spec_tag(input@, pos as int, kw_struct()),
{
    let n = input.len();
    if n - pos >= 6 && input[pos + 0] == 115 && input[pos + 1] == 116 && input[pos + 2] == 114 && input[pos + 3] == 117 && input[pos + 4] == 99 && input[pos + 5] == 116 {
        proof {
            assert(input@.subrange(pos as int, pos + 6) =~= kw_struct());
        }
        true
    } else {
        proof {
            if spec_tag(input@, pos as int, kw_struct()) {
                assert(forall|k: int| 0 <= k < 6 ==> input@.subrange(pos as int, pos + 6)[k]
                    == kw_struct()[k]);
            }
        }
        false
    }
}


pub open spec fn kw_union() -> Seq<u8> {
    seq![117u8, 110u8, 105u8, 111u8, 110u8]
}

fn tag_union(input: &[u8], pos: usize) -> (r: bool)
    requires
        pos <= input@.len(),
    ensures
        r == spec_tag(input@, pos as int, kw_union()),
{
    let n = input.len();
    if n - pos >= 5 && input[pos + 0] == 117 && input[pos + 1] == 110 && input[pos + 2] == 105 && input[pos + 3] == 111 && input[pos + 4] == 110 {
        proof {
            assert(input@.subrange(pos as int, pos + 5) =~= kw_union());
        }
        true
    } else {
        proof {
            if spec_tag(input@, pos as int, kw_union()) {
                assert(forall|k: int| 0 <= k < 5 ==> input@.subrange(pos as int, pos + 5)[k]
                    == kw_union()[k]);
            }
        }
        false
    }
}


pub open spec fn kw_exception() -> Seq<u8> {
    seq![101u8, 120u8, 99u8, 101u8, 112u8, 116u8, 105u8, 111u8, 110u8]
}

fn tag_exception(input: &[u8], pos: usize) -> (r: bool)
    requires
        pos <= input@.len(),
    ensures
        r == spec_tag(input@, pos as int, kw_exception()),
{
    let n = input.len();
    if n - pos >= 9 && input[pos + 0] == 101 && input[pos + 1] == 120 && input[pos + 2] == 99 && input[pos + 3] == 101 && input[pos + 4] == 112 && input[pos + 5] == 116 && input[pos + 6] == 105 && input[pos + 7] == 111 && input[pos + 8] == 110 {
        proof {
            assert(input@.subrange(pos as int, pos + 9) =~= kw_exception());
        }
        true
    } else {
        proof {
            if spec_tag(input@, pos as int, kw_exception()) {
                assert(forall|k: int| 0 <= k < 9 ==> input@.subrange(pos as int, pos + 9)[k]
                    == kw_exception()[k]);
            }
        }
        false
    }
}


pub open spec fn kw_service() -> Seq<u8> {
    seq![115u8, 101u8, 114u8, 118u8, 105u8, 99u8, 101u8]
}

fn tag_service(input: &[u8], pos: usize) -> (r: bool)
    requires
        pos <= input@.len(),
    ensures
        r == spec_tag(input@, pos as int, kw_service()),
{
    let n = input.len();
    if n - pos >= 7 && input[pos + 0] == 115 && input[pos + 1] == 101 && input[pos + 2] == 114 && input[pos + 3] == 118 && input[pos + 4] == 105 && input[pos + 5] == 99 && input[pos + 6] == 101 {
        proof {
            assert(input@.subrange(pos as int, pos + 7) =~= kw_service());
        }
        true
    } else {
        proof {
            if spec_tag(input@, pos as int, kw_service()) {
                assert(forall|k: int| 0 <= k < 7 ==> input@.subrange(pos as int, pos + 7)[k]
                    == kw_service()[k]);
            }
        }
        false
    }
}


pub open spec fn kw_extends() -> Seq<u8> {
    seq![101u8, 120u8, 116u8, 101u8, 110u8, 100u8, 115u8]
}

fn tag_extends(input: &[u8], pos: usize) -> (r: bool)
    requires
        pos <= input@.len(),
    ensures
        r == spec_tag(input@, pos as int, kw_extends()),
{
    let n = input.len();
    if n - pos >= 7 && input[pos + 0] == 101 && input[pos + 1] == 120 && input[pos + 2] == 116 && input[pos + 3] == 101 && input[pos + 4] == 110 && input[pos + 5] == 100 && input[pos + 6] == 115 {
        proof {
            assert(input@.subrange(pos as int, pos + 7) =~= kw_extends());
        }
        true
    } else {
        proof {
            if spec_tag(input@, pos as int, kw_extends()) {
                assert(forall|k: int| 0 <= k < 7 ==> input@.subrange(pos as int, pos + 7)[k]
                    == kw_extends()[k]);
            }
        }
        false
    }
}


pub open spec fn kw_required() -> Seq<u8> {
    seq![114u8, 101u8, 113u8, 117u8, 105u8, 114u8, 101u8, 100u8]
}

fn tag_required(input: &[u8], pos: usize) -> (r: bool)
    requires
        pos <= input@.len(),
    ensures
        r == spec_tag(input@, pos as int, kw_required()),
{
    let n = input.len();
    if n - pos >= 8 && input[pos + 0] == 114 && input[pos + 1] == 101 && input[pos + 2] == 113 && input[pos + 3] == 117 && input[pos + 4] == 105 && input[pos + 5] == 114 && input[pos + 6] == 101 && input[pos + 7] == 100 {
        proof {
            assert(input@.subrange(pos as int, pos + 8) =~= kw_required());
        }
        true
    } else {
        proof {
            if spec_tag(input@, pos as int, kw_required()) {
                assert(forall|k: int| 0 <= k < 8 ==> input@.subrange(pos as int, pos + 8)[k]
                    == kw_required()[k]);
            }
        }
        false
    }
}


pub open spec fn kw_optional() -> Seq<u8> {
    seq![111u8, 112u8, 116u8, 105u8, 111u8, 110u8, 97u8, 108u8]
}

fn tag_optional(input: &[u8], pos: usize) -> (r: bool)
    requires
        pos <= input@.len(),
    ensures
        r == spec_tag(input@, pos as int, kw_optional()),
{
    let n = input.len();
    if n - pos >= 8 && input[pos + 0] == 111 && input[pos + 1] == 112 && input[pos + 2] == 116 && input[pos + 3] == 105 && input[pos + 4] == 111 && input[pos + 5] == 110 && input[pos + 6] == 97 && input[pos + 7] == 108 {
        proof {
            assert(input@.subrange(pos as int, pos + 8) =~= kw_optional());
        }
        true
    } else {
        proof {
            if spec_tag(input@, pos as int, kw_optional()) {
                assert(forall|k: int| 0 <= k < 8 ==> input@.subrange(pos as int, pos + 8)[k]
                    == kw_optional()[k]);
            }
        }
        false
    }
}


pub open spec fn kw_oneway() -> Seq<u8> {
    seq![111u8, 110u8, 101u8, 119u8, 97u8, 121u8]
}

fn tag_oneway(input: &[u8], pos: usize) -> (r: bool)
    requires
        pos <= input@.len(),
    ensures
        r == spec_tag(input@, pos as int, kw_oneway()),
{
    let n = input.len();
    if n - pos >= 6 && input[pos + 0] == 111 && input[pos + 1] == 110 && input[pos + 2] == 101 && input[pos + 3] == 119 && input[pos + 4] == 97 && input[pos + 5] == 121 {
        proof {
            assert(input@.subrange(pos as int, pos + 6) =~= kw_oneway());
        }
        true
    } else {
        proof {
            if spec_tag(input@, pos as int, kw_oneway()) {
                assert(forall|k: int| 0 <= k < 6 ==> input@.subrange(pos as int, pos + 6)[k]
                    == kw_oneway()[k]);
            }
        }
        false
    }
}


pub open spec fn kw_throws() -> Seq<u8> {
    seq![116u8, 104u8, 114u8, 111u8, 119u8, 115u8]
}

fn tag_throws(input: &[u8], pos: usize) -> (r: bool)
    requires
        pos <= input@.len(),
    ensures
        r == spec_tag(input@, pos as int, kw_throws()),
{
    let n = input.len();
    if n - pos >= 6 && input[pos + 0] == 116 && input[pos + 1] == 104 && input[pos + 2] == 114 && input[pos + 3] == 111 && input[pos + 4] == 119 && input[pos + 5] == 115 {
        proof {
            assert(input@.subrange(pos as int, pos + 6) =~= kw_throws());
        }
        true
    } else {
        proof {
            if spec_tag(input@, pos as int, kw_throws()) {
                assert(forall|k: int| 0 <= k < 6 ==> input@.subrange(pos as int, pos + 6)[k]
                    == kw_throws()[k]);
            }
        }
        false
    }
}

// ---------------------------------------------------------------------------
// The abstract syntax tree and its mathematical view.
// ---------------------------------------------------------------------------

/// A type expression of the IDL: the base types, the three containers with
/// boxed children, and a user-defined name left unresolved at parse time.
#[derive(Debug, PartialEq, Eq)]
pub enum Ty {
    String,
    Void,
    Byte,
    Bool,
    Binary,
    I8,
    I16,
    I32,
    I64,
    Double,
    List(Box<Ty>),
    Set_(Box<Ty>),
    Map_(Box<Ty>, Box<Ty>),
    Ident(String),
}

pub enum TyV {
    String,
    Void,
    Byte,
    Bool,
    Binary,
    I8,
    I16,
    I32,
    I64,
    Double,
    List(Box<TyV>),
    Set_(Box<TyV>),
    Map_(Box<TyV>, Box<TyV>),
    Ident(Seq<char>),
}

/// The view of a type expression.
pub open spec fn ty_view(t: Ty) -> TyV
    decreases t,
{
    match t {
        Ty::String => TyV::String,
        Ty::Void => TyV::Void,
        Ty::Byte => TyV::Byte,
        Ty::Bool => TyV::Bool,
        Ty::Binary => TyV::Binary,
        Ty::I8 => TyV::I8,
        Ty::I16 => TyV::I16,
        Ty::I32 => TyV::I32,
        Ty::I64 => TyV::I64,
        Ty::Double => TyV::Double,
        Ty::List(t0) => TyV::List(Box::new(ty_view(*t0))),
        Ty::Set_(t0) => TyV::Set_(Box::new(ty_view(*t0))),
        Ty::Map_(k, v) => TyV::Map_(Box::new(ty_view(*k)), Box::new(ty_view(*v))),
        Ty::Ident(s) => TyV::Ident(s@),
    }
}

impl View for Ty {
    type V = TyV;

    open spec fn view(&self) -> TyV {
        ty_view(*self)
    }
}

// ---------------------------------------------------------------------------
// The type grammar: base types first, then containers, then a bare name.
// ---------------------------------------------------------------------------

/// A base-type keyword.
pub open spec fn spec_base_type(input: Seq<u8>, pos: int) -> PRes<TyV> {
    if spec_tag(input, pos, kw_bool()) {
        PRes::POk { v: TyV::Bool, end: pos + 4 }
    } else if spec_tag(input, pos, kw_byte()) {
        PRes::POk { v: TyV::Byte, end: pos + 4 }
    } else if spec_tag(input, pos, kw_i8()) {
        PRes::POk { v: TyV::I8, end: pos + 2 }
    } else if spec_tag(input, pos, kw_i16()) {
        PRes::POk { v: TyV::I16, end: pos + 3 }
    } else if spec_tag(input, pos, kw_i32()) {
        PRes::POk { v: TyV::I32, end: pos + 3 }
    } else if spec_tag(input, pos, kw_i64()) {
        PRes::POk { v: TyV::I64, end: pos + 3 }
    } else if spec_tag(input, pos, kw_double()) {
        PRes::POk { v: TyV::Double, end: pos + 6 }
    } else if spec_tag(input, pos, kw_string()) {
        PRes::POk { v: TyV::String, end: pos + 6 }
    } else if spec_tag(input, pos, kw_binary()) {
        PRes::POk { v: TyV::Binary, end: pos + 6 }
    } else if pos >= input.len() {
        PRes::PFail { err: ParseError::UnexpectedEof }
    } else {
        PRes::PFail { err: ParseError::Expected }
    }
}

pub fn base_type(input: &[u8], pos: usize) -> (r: Result<(Ty, usize), ParseError>)
    requires
        pos <= input@.len(),
    ensures
        match spec_base_type(input@, pos as int) {
            PRes::POk { v, end } => r matches Ok((t, e)) && t@ == v && e == end && pos < e
                <= input@.len(),
            PRes::PFail { err } => r == Err::<(Ty, usize), ParseError>(err),
        },
{
    let n = input.len();
    if tag_bool(input, pos) {
        Ok((Ty::Bool, pos + 4))
    } else if tag_byte(input, pos) {
        Ok((Ty::Byte, pos + 4))
    } else if tag_i8(input, pos) {
        Ok((Ty::I8, pos + 2))
    } else if tag_i16(input, pos) {
        Ok((Ty::I16, pos + 3))
    } else if tag_i32(input, pos) {
        Ok((Ty::I32, pos + 3))
    } else if tag_i64(input, pos) {
        Ok((Ty::I64, pos + 3))
    } else if tag_double(input, pos) {
        Ok((Ty::Double, pos + 6))
    } else if tag_string(input, pos) {
        Ok((Ty::String, pos + 6))
    } else if tag_binary(input, pos) {
        Ok((Ty::Binary, pos + 6))
    } else if pos >= n {
        Err(ParseError::UnexpectedEof)
    } else {
        Err(ParseError::Expected)
    }
}

/// `map < K , V >`, blanks tolerated around the punctuation.
pub open spec fn spec_map_type(input: Seq<u8>, pos: int) -> PRes<TyV>
    decreases input.len() - pos, 1int,
{
    if !spec_tag(input, pos, kw_map()) {
        if pos >= input.len() {
            PRes::PFail { err: ParseError::UnexpectedEof }
        } else {
            PRes::PFail { err: ParseError::Expected }
        }
    } else {
        let p1 = spec_opt_blank(input, pos + 3);
        match spec_ch(input, p1, 60) {
            PRes::PFail { err } => PRes::PFail { err },
            PRes::POk { v: _, end: p2r } => {
                let p2 = spec_opt_blank(input, p2r);
                match spec_field_type(input, p2) {
                    PRes::PFail { err } => PRes::PFail { err },
                    PRes::POk { v: kty, end: p3r } => {
                        if !(pos < p3r <= input.len()) {
                            PRes::PFail { err: ParseError::Expected }
                        } else {
                            let p3 = spec_opt_blank(input, p3r);
                            match spec_ch(input, p3, 44) {
                                PRes::PFail { err } => PRes::PFail { err },
                                PRes::POk { v: _, end: p4r } => {
                                    let p4 = spec_opt_blank(input, p4r);
                                    match spec_field_type(input, p4) {
                                        PRes::PFail { err } => PRes::PFail { err },
                                        PRes::POk { v: vty, end: p5r } => {
                                            let p5 = spec_opt_blank(input, p5r);
                                            match spec_ch(input, p5, 62) {
                                                PRes::PFail { err } => PRes::PFail { err },
                                                PRes::POk { v: _, end } => PRes::POk {
                                                    v: TyV::Map_(Box::new(kty), Box::new(vty)),
                                                    end,
                                                },
                                            }
                                        },
                                    }
                                },
                            }
                        }
                    },
                }
            },
        }
    }
}

/// `set < T >`.
pub open spec fn spec_set_type(input: Seq<u8>, pos: int) -> PRes<TyV>
    decreases input.len() - pos, 1int,
{
    if !spec_tag(input, pos, kw_set()) {
        if pos >= input.len() {
            PRes::PFail { err: ParseError::UnexpectedEof }
        } else {
            PRes::PFail { err: ParseError::Expected }
        }
    } else {
        let p1 = spec_opt_blank(input, pos + 3);
        match spec_ch(input, p1, 60) {
            PRes::PFail { err } => PRes::PFail { err },
            PRes::POk { v: _, end: p2r } => {
                let p2 = spec_opt_blank(input, p2r);
                match spec_field_type(input, p2) {
                    PRes::PFail { err } => PRes::PFail { err },
                    PRes::POk { v: ity, end: p3r } => {
                        let p3 = spec_opt_blank(input, p3r);
                        match spec_ch(input, p3, 62) {
                            PRes::PFail { err } => PRes::PFail { err },
                            PRes::POk { v: _, end } => PRes::POk {
                                v: TyV::Set_(Box::new(ity)),
                                end,
                            },
                        }
                    },
                }
            },
        }
    }
}

/// `list < T >`.
pub open spec fn spec_list_type(input: Seq<u8>, pos: int) -> PRes<TyV>
    decreases input.len() - pos, 1int,
{
    if !spec_tag(input, pos, kw_list()) {
        if pos >= input.len() {
            PRes::PFail { err: ParseError::UnexpectedEof }
        } else {
            PRes::PFail { err: ParseError::Expected }
        }
    } else {
        let p1 = spec_opt_blank(input, pos + 4);
        match spec_ch(input, p1, 60) {
            PRes::PFail { err } => PRes::PFail { err },
            PRes::POk { v: _, end: p2r } => {
                let p2 = spec_opt_blank(input, p2r);
                match spec_field_type(input, p2) {
                    PRes::PFail { err } => PRes::PFail { err },
                    PRes::POk { v: ity, end: p3r } => {
                        let p3 = spec_opt_blank(input, p3r);
                        match spec_ch(input, p3, 62) {
                            PRes::PFail { err } => PRes::PFail { err },
                            PRes::POk { v: _, end } => PRes::POk {
                                v: TyV::List(Box::new(ity)),
                                end,
                            },
                        }
                    },
                }
            },
        }
    }
}

/// One of the three container types.
pub open spec fn spec_container_type(input: Seq<u8>, pos: int) -> PRes<TyV>
    decreases input.len() - pos, 2int,
{
    match spec_map_type(input, pos) {
        PRes::POk { v, end } => PRes::POk { v, end },
        PRes::PFail { err: ParseError::Expected } => match spec_set_type(input, pos) {
            PRes::POk { v, end } => PRes::POk { v, end },
            PRes::PFail { err: ParseError::Expected } => spec_list_type(input, pos),
            PRes::PFail { err } => PRes::PFail { err },
        },
        PRes::PFail { err } => PRes::PFail { err },
    }
}

/// A field's type: a base type, a container, or a bare user-defined name,
/// tried in that order.
pub open spec fn spec_field_type(input: Seq<u8>, pos: int) -> PRes<TyV>
    decreases input.len() - pos, 3int,
{
    match spec_base_type(input, pos) {
        PRes::POk { v, end } => PRes::POk { v, end },
        PRes::PFail { err: ParseError::Expected } => match spec_container_type(input, pos) {
            PRes::POk { v, end } => PRes::POk { v, end },
            PRes::PFail { err: ParseError::Expected } => match spec_identifier(input, pos) {
                PRes::POk { v, end } => PRes::POk { v: TyV::Ident(v), end },
                PRes::PFail { err } => PRes::PFail { err },
            },
            PRes::PFail { err } => PRes::PFail { err },
        },
        PRes::PFail { err } => PRes::PFail { err },
    }
}

/// The type of a typedef: a base type or a container, never a bare name.
pub open spec fn spec_definition_type(input: Seq<u8>, pos: int) -> PRes<TyV> {
    match spec_base_type(input, pos) {
        PRes::POk { v, end } => PRes::POk { v, end },
        PRes::PFail { err: ParseError::Expected } => spec_container_type(input, pos),
        PRes::PFail { err } => PRes::PFail { err },
    }
}

pub fn map_type(input: &[u8], pos: usize) -> (r: Result<(Ty, usize), ParseError>)
    requires
        pos <= input@.len(),
    ensures
        match spec_map_type(input@, pos as int) {
            PRes::POk { v, end } => r matches Ok((t, e)) && t@ == v && e == end && pos < e
                <= input@.len(),
            PRes::PFail { err } => r == Err::<(Ty, usize), ParseError>(err),
        },
    decreases input@.len() - pos, 1int,
{
    let n = input.len();
    if !tag_map(input, pos) {
        if pos >= n {
            return Err(ParseError::UnexpectedEof);
        }
        return Err(ParseError::Expected);
    }
    let p1 = opt_blank(input, pos + 3);
    let p2r = match ch(input, p1, 60) {
        Ok((_, e)) => e,
        Err(e) => { return Err(e); },
    };
    let p2 = opt_blank(input, p2r);
    let (kty, p3r) = match field_type(input, p2) {
        Ok(x) => x,
        Err(e) => { return Err(e); },
    };
    let p3 = opt_blank(input, p3r);
    let p4r = match ch(input, p3, 44) {
        Ok((_, e)) => e,
        Err(e) => { return Err(e); },
    };
    let p4 = opt_blank(input, p4r);
    let (vty, p5r) = match field_type(input, p4) {
        Ok(x) => x,
        Err(e) => { return Err(e); },
    };
    let p5 = opt_blank(input, p5r);
    match ch(input, p5, 62) {
        Ok((_, end)) => Ok((Ty::Map_(Box::new(kty), Box::new(vty)), end)),
        Err(e) => Err(e),
    }
}

pub fn set_type(input: &[u8], pos: usize) -> (r: Result<(Ty, usize), ParseError>)
    requires
        pos <= input@.len(),
    ensures
        match spec_set_type(input@, pos as int) {
            PRes::POk { v, end } => r matches Ok((t, e)) && t@ == v && e == end && pos < e
                <= input@.len(),
            PRes::PFail { err } => r == Err::<(Ty, usize), ParseError>(err),
        },
    decreases input@.len() - pos, 1int,
{
    let n = input.len();
    if !tag_set(input, pos) {
        if pos >= n {
            return Err(ParseError::UnexpectedEof);
        }
        return Err(ParseError::Expected);
    }
    let p1 = opt_blank(input, pos + 3);
    let p2r = match ch(input, p1, 60) {
        Ok((_, e)) => e,
        Err(e) => { return Err(e); },
    };
    let p2 = opt_blank(input, p2r);
    let (ity, p3r) = match field_type(input, p2) {
        Ok(x) => x,
        Err(e) => { return Err(e); },
    };
    let p3 = opt_blank(input, p3r);
    match ch(input, p3, 62) {
        Ok((_, end)) => Ok((Ty::Set_(Box::new(ity)), end)),
        Err(e) => Err(e),
    }
}

pub fn list_type(input: &[u8], pos: usize) -> (r: Result<(Ty, usize), ParseError>)
    requires
        pos <= input@.len(),
    ensures
        match spec_list_type(input@, pos as int) {
            PRes::POk { v, end } => r matches Ok((t, e)) && t@ == v && e == end && pos < e
                <= input@.len(),
            PRes::PFail { err } => r == Err::<(Ty, usize), ParseError>(err),
        },
    decreases input@.len() - pos, 1int,
{
    let n = input.len();
    if !tag_list(input, pos) {
        if pos >= n {
            return Err(ParseError::UnexpectedEof);
        }
        return Err(ParseError::Expected);
    }
    let p1 = opt_blank(input, pos + 4);
    let p2r = match ch(input, p1, 60) {
        Ok((_, e)) => e,
        Err(e) => { return Err(e); },
    };
    let p2 = opt_blank(input, p2r);
    let (ity, p3r) = match field_type(input, p2) {
        Ok(x) => x,
        Err(e) => { return Err(e); },
    };
    let p3 = opt_blank(input, p3r);
    match ch(input, p3, 62) {
        Ok((_, end)) => Ok((Ty::List(Box::new(ity)), end)),
        Err(e) => Err(e),
    }
}

pub fn container_type(input: &[u8], pos: usize) -> (r: Result<(Ty, usize), ParseError>)
    requires
        pos <= input@.len(),
    ensures
        match spec_container_type(input@, pos as int) {
            PRes::POk { v, end } => r matches Ok((t, e)) && t@ == v && e == end && pos < e
                <= input@.len(),
            PRes::PFail { err } => r == Err::<(Ty, usize), ParseError>(err),
        },
    decreases input@.len() - pos, 2int,
{
    match map_type(input, pos) {
        Ok(x) => Ok(x),
        Err(ParseError::Expected) => match set_type(input, pos) {
            Ok(x) => Ok(x),
            Err(ParseError::Expected) => list_type(input, pos),
            Err(e) => Err(e),
        },
        Err(e) => Err(e),
    }
}

pub fn field_type(input: &[u8], pos: usize) -> (r: Result<(Ty, usize), ParseError>)
    requires
        pos <= input@.len(),
    ensures
        match spec_field_type(input@, pos as int) {
            PRes::POk { v, end } => r matches Ok((t, e)) && t@ == v && e == end && pos < e
                <= input@.len(),
            PRes::PFail { err } => r == Err::<(Ty, usize), ParseError>(err),
        },
    decreases input@.len() - pos, 3int,
{
    match base_type(input, pos) {
        Ok(x) => Ok(x),
        Err(ParseError::Expected) => match container_type(input, pos) {
            Ok(x) => Ok(x),
            Err(ParseError::Expected) => match identifier(input, pos) {
                Ok((s, e)) => Ok((Ty::Ident(s), e)),
                Err(e) => Err(e),
            },
            Err(e) => Err(e),
        },
        Err(e) => Err(e),
    }
}

pub fn definition_type(input: &[u8], pos: usize) -> (r: Result<(Ty, usize), ParseError>)
    requires
        pos <= input@.len(),
    ensures
        match spec_definition_type(input@, pos as int) {
            PRes::POk { v, end } => r matches Ok((t, e)) && t@ == v && e == end && pos < e
                <= input@.len(),
            PRes::PFail { err } => r == Err::<(Ty, usize), ParseError>(err),
        },
{
    match base_type(input, pos) {
        Ok(x) => Ok(x),
        Err(ParseError::Expected) => container_type(input, pos),
        Err(e) => Err(e),
    }
}

// ---------------------------------------------------------------------------
// The rest of the tree: constants, fields, definitions, the document.
// ---------------------------------------------------------------------------

/// A constant value. A double constant carries its literal text, kept in a
/// canonical `[sign]digits.digits[e exponent]` form; the target language
/// turns the text into its floating type.
#[derive(Debug, PartialEq)]
pub enum ConstValue {
    Int(i64),
    Double(String),
    String(String),
    List(Vec<ConstValue>),
    Map_,
}

pub enum ConstValueV {
    Int(i64),
    Double(Seq<char>),
    String(Seq<char>),
    List(Seq<ConstValueV>),
    Map_,
}

/// The view of a constant value.
pub open spec fn const_value_view(c: ConstValue) -> ConstValueV
    decreases c,
{
    match c {
        ConstValue::Int(i) => ConstValueV::Int(i),
        ConstValue::Double(s) => ConstValueV::Double(s@),
        ConstValue::String(s) => ConstValueV::String(s@),
        ConstValue::List(vs) => ConstValueV::List(const_values_view(vs@)),
        ConstValue::Map_ => ConstValueV::Map_,
    }
}

/// The views of a row of constant values.
pub open spec fn const_values_view(vs: Seq<ConstValue>) -> Seq<ConstValueV>
    decreases vs,
{
    if vs.len() == 0 {
        Seq::empty()
    } else {
        seq![const_value_view(vs[0])] + const_values_view(vs.subrange(1, vs.len() as int))
    }
}

/// The view of a row has one entry per value, each the value's own view.
pub proof fn lemma_const_values_view(vs: Seq<ConstValue>)
    ensures
        const_values_view(vs).len() == vs.len(),
        forall|i: int|
            0 <= i < vs.len() ==> const_values_view(vs)[i] == const_value_view(#[trigger] vs[i]),
    decreases vs.len(),
{
    if vs.len() > 0 {
        let rest = vs.subrange(1, vs.len() as int);
        lemma_const_values_view(rest);
        assert forall|i: int| 0 <= i < vs.len() implies const_values_view(vs)[i]
            == const_value_view(#[trigger] vs[i]) by {
            if i > 0 {
                assert(rest[i - 1] == vs[i]);
                assert(const_values_view(vs)[i] == const_values_view(rest)[i - 1]);
            }
        }
    }
}

impl View for ConstValue {
    type V = ConstValueV;

    open spec fn view(&self) -> ConstValueV {
        const_value_view(*self)
    }
}

/// A double literal: a sign and digits, then a fraction, an exponent, or
/// both. Its value is the canonical text, built from the consumed bytes with
/// `0` standing in for a missing fraction.
pub open spec fn spec_double_constant(input: Seq<u8>, pos: int) -> PRes<Seq<char>> {
    let sp = spec_sgn(input, pos);
    let dstart = match sp {
        PRes::POk { v, end } => end,
        PRes::PFail { err } => pos,
    };
    if dstart >= input.len() {
        PRes::PFail { err: ParseError::UnexpectedEof }
    } else if !is_digit(input[dstart]) {
        PRes::PFail { err: ParseError::Expected }
    } else {
        let dend = spec_digits_end(input, dstart);
        if dend < input.len() && input[dend] == 46 {
            let fstart = dend + 1;
            if fstart >= input.len() {
                PRes::PFail { err: ParseError::UnexpectedEof }
            } else if !is_digit(input[fstart]) {
                PRes::PFail { err: ParseError::Expected }
            } else {
                let fend = spec_digits_end(input, fstart);
                if fend < input.len() && (input[fend] == 101 || input[fend] == 69) {
                    match spec_int_constant(input, fend + 1) {
                        PRes::POk { v: _, end: pend } => PRes::POk {
                            v: decode_utf8(
                                input.subrange(pos, dend) + seq![46u8] + input.subrange(
                                    fstart,
                                    fend,
                                ) + seq![101u8] + input.subrange(fend + 1, pend),
                            ),
                            end: pend,
                        },
                        PRes::PFail { err: ParseError::Expected } => PRes::POk {
                            v: decode_utf8(
                                input.subrange(pos, dend) + seq![46u8] + input.subrange(
                                    fstart,
                                    fend,
                                ),
                            ),
                            end: fend,
                        },
                        PRes::PFail { err } => PRes::PFail { err },
                    }
                } else {
                    PRes::POk {
                        v: decode_utf8(
                            input.subrange(pos, dend) + seq![46u8] + input.subrange(
                                fstart,
                                fend,
                            ),
                        ),
                        end: fend,
                    }
                }
            }
        } else if dend < input.len() && (input[dend] == 101 || input[dend] == 69) {
            match spec_int_constant(input, dend + 1) {
                PRes::POk { v: _, end: pend } => PRes::POk {
                    v: decode_utf8(
                        input.subrange(pos, dend) + seq![46u8, 48u8, 101u8] + input.subrange(
                            dend + 1,
                            pend,
                        ),
                    ),
                    end: pend,
                },
                PRes::PFail { err } => PRes::PFail { err },
            }
        } else if dend >= input.len() {
            PRes::PFail { err: ParseError::UnexpectedEof }
        } else {
            PRes::PFail { err: ParseError::Expected }
        }
    }
}

/// Copies `input[from..to]` onto the end of `buf`.
fn push_range(buf: &mut Vec<u8>, input: &[u8], from: usize, to: usize)
    requires
        from <= to <= input@.len(),
    ensures
        final(buf)@ == old(buf)@ + input@.subrange(from as int, to as int),
{
    let mut i = from;
    while i < to
        invariant
            from <= i <= to <= input@.len(),
            buf@ == old(buf)@ + input@.subrange(from as int, i as int),
        decreases to - i,
    {
        buf.push(input[i]);
        proof {
            assert(buf@ =~= old(buf)@ + input@.subrange(from as int, i + 1));
        }
        i = i + 1;
    }
    proof {
        assert(buf@ =~= old(buf)@ + input@.subrange(from as int, to as int));
    }
}

fn digits_end_exec(input: &[u8], pos: usize) -> (r: usize)
    requires
        pos <= input@.len(),
    ensures
        r == spec_digits_end(input@, pos as int),
        pos <= r <= input@.len(),
{
    let n = input.len();
    let mut i = pos;
    while i < n && digit_byte(input[i])
        invariant
            pos <= i <= n,
            n == input@.len(),
            spec_digits_end(input@, pos as int) == spec_digits_end(input@, i as int),
        decreases n - i,
    {
        i = i + 1;
    }
    i
}

#[verifier::rlimit(60)]
pub fn double_constant(input: &[u8], pos: usize) -> (r: Result<(String, usize), ParseError>)
    requires
        pos <= input@.len(),
    ensures
        match spec_double_constant(input@, pos as int) {
            PRes::POk { v, end } => r matches Ok((s, e)) && s@ == v && e == end && pos < e
                <= input@.len(),
            PRes::PFail { err } => r == Err::<(String, usize), ParseError>(err),
        },
{
    let n = input.len();
    let dstart = match sgn(input, pos) {
        Ok((_, e)) => e,
        Err(_) => pos,
    };
    if dstart >= n {
        return Err(ParseError::UnexpectedEof);
    }
    if !digit_byte(input[dstart]) {
        return Err(ParseError::Expected);
    }
    let dend = digits_end_exec(input, dstart);
    if dend < n && input[dend] == 46 {
        let fstart = dend + 1;
        if fstart >= n {
            return Err(ParseError::UnexpectedEof);
        }
        if !digit_byte(input[fstart]) {
            return Err(ParseError::Expected);
        }
        let fend = digits_end_exec(input, fstart);
        let mut has_exp = false;
        let mut pend = fend;
        if fend < n && (input[fend] == 101 || input[fend] == 69) {
            match int_constant(input, fend + 1) {
                Ok((_, e)) => {
                    has_exp = true;
                    pend = e;
                },
                Err(ParseError::Expected) => {},
                Err(e) => { return Err(e); },
            }
        }
        let mut buf: Vec<u8> = Vec::new();
        push_range(&mut buf, input, pos, dend);
        buf.push(46);
        push_range(&mut buf, input, fstart, fend);
        if has_exp {
            buf.push(101);
            push_range(&mut buf, input, fend + 1, pend);
        }
        proof {
            if has_exp {
                assert(buf@ =~= input@.subrange(pos as int, dend as int) + seq![46u8]
                    + input@.subrange(fstart as int, fend as int) + seq![101u8]
                    + input@.subrange(fend + 1, pend as int));
            } else {
                assert(buf@ =~= input@.subrange(pos as int, dend as int) + seq![46u8]
                    + input@.subrange(fstart as int, fend as int));
            }
            assert forall|j: int| 0 <= j < buf@.len() implies buf@[j] < 0x80 by {
                lemma_digits_run(input@, dstart as int);
                lemma_digits_run(input@, fstart as int);
                if has_exp {
                    lemma_int_constant_ascii(input@, fend + 1);
                }
            };
        }
        let s = ascii_to_string(buf);
        Ok((s, pend))
    } else if dend < n && (input[dend] == 101 || input[dend] == 69) {
        let pend = match int_constant(input, dend + 1) {
            Ok((_, e)) => e,
            Err(e) => { return Err(e); },
        };
        let mut buf: Vec<u8> = Vec::new();
        push_range(&mut buf, input, pos, dend);
        buf.push(46);
        buf.push(48);
        buf.push(101);
        push_range(&mut buf, input, dend + 1, pend);
        proof {
            assert(buf@ =~= input@.subrange(pos as int, dend as int) + seq![46u8, 48u8, 101u8]
                + input@.subrange(dend + 1, pend as int));
            assert forall|j: int| 0 <= j < buf@.len() implies buf@[j] < 0x80 by {
                lemma_digits_run(input@, dstart as int);
                lemma_int_constant_ascii(input@, dend + 1);
            };
        }
        let s = ascii_to_string(buf);
        Ok((s, pend))
    } else if dend >= n {
        Err(ParseError::UnexpectedEof)
    } else {
        Err(ParseError::Expected)
    }
}

/// Every byte between a digit start and its scan end is a digit.
proof fn lemma_digits_run(input: Seq<u8>, pos: int)
    requires
        0 <= pos <= input.len(),
    ensures
        pos <= spec_digits_end(input, pos) <= input.len(),
        forall|k: int|
            pos <= k < spec_digits_end(input, pos) ==> is_digit(#[trigger] input[k]),
    decreases input.len() - pos,
{
    if pos < input.len() && is_digit(input[pos]) {
        lemma_digits_run(input, pos + 1);
    }
}

/// What an integer constant consumes is a sign and digits: ASCII bytes.
proof fn lemma_int_constant_ascii(input: Seq<u8>, pos: int)
    requires
        0 <= pos <= input.len(),
    ensures
        spec_int_constant(input, pos) matches PRes::POk { v, end } ==> pos <= end <= input.len()
            && forall|k: int| pos <= k < end ==> input[k] < 0x80,
{
    match spec_sgn(input, pos) {
        PRes::POk { v: _, end: ds } => {
            lemma_digits_run(input, ds);
        },
        PRes::PFail { err: _ } => {
            lemma_digits_run(input, pos);
        },
    }
}

/// Appending a value to a row appends its view.
pub proof fn lemma_const_values_view_push(vs: Seq<ConstValue>, x: ConstValue)
    ensures
        const_values_view(vs.push(x)) == const_values_view(vs).push(const_value_view(x)),
{
    lemma_const_values_view(vs.push(x));
    lemma_const_values_view(vs);
    assert forall|i: int| 0 <= i < vs.len() + 1 implies const_values_view(vs.push(x))[i]
        == const_values_view(vs).push(const_value_view(x))[i] by {
        if i < vs.len() {
            assert(vs.push(x)[i] == vs[i]);
        } else {
            assert(vs.push(x)[i] == x);
        }
    }
    assert(const_values_view(vs.push(x)) =~= const_values_view(vs).push(const_value_view(x)));
}

/// A constant: a double, an integer, a quoted string, a bracketed list or a
/// braced map, tried in that order. A bare name is not a supported constant.
pub open spec fn spec_const_value(input: Seq<u8>, pos: int) -> PRes<ConstValueV>
    decreases input.len() - pos, 2int,
{
    match spec_double_constant(input, pos) {
        PRes::POk { v, end } => PRes::POk { v: ConstValueV::Double(v), end },
        PRes::PFail { err: ParseError::Expected } => match spec_int_constant(input, pos) {
            PRes::POk { v, end } => PRes::POk { v: ConstValueV::Int(v), end },
            PRes::PFail { err: ParseError::Expected } => match spec_literal(input, pos) {
                PRes::POk { v, end } => PRes::POk { v: ConstValueV::String(v), end },
                PRes::PFail { err: ParseError::Expected } => match spec_identifier(input, pos) {
                    PRes::POk { v, end } => PRes::PFail { err: ParseError::UnknownKeyword },
                    PRes::PFail { err: ParseError::Expected } => match spec_const_list(
                        input,
                        pos,
                    ) {
                        PRes::POk { v, end } => PRes::POk { v, end },
                        PRes::PFail { err: ParseError::Expected } => spec_const_map(input, pos),
                        PRes::PFail { err } => PRes::PFail { err },
                    },
                    PRes::PFail { err } => PRes::PFail { err },
                },
                PRes::PFail { err } => PRes::PFail { err },
            },
            PRes::PFail { err } => PRes::PFail { err },
        },
        PRes::PFail { err } => PRes::PFail { err },
    }
}

/// The values inside a constant list, each followed by optional blank, an
/// optional separator, and optional blank again.
pub open spec fn spec_const_items(input: Seq<u8>, pos: int) -> PRes<Seq<ConstValueV>>
    decreases input.len() - pos, 3int,
{
    if pos >= input.len() {
        PRes::POk { v: Seq::empty(), end: pos }
    } else {
        match spec_const_value(input, pos) {
            PRes::PFail { err: ParseError::Expected } => PRes::POk { v: Seq::empty(), end: pos },
            PRes::PFail { err } => PRes::PFail { err },
            PRes::POk { v, end } => {
                if !(pos < end <= input.len()) {
                    PRes::POk { v: Seq::empty(), end: pos }
                } else {
                    let p1 = spec_opt_blank(input, end);
                    let p2 = match spec_list_separator(input, p1) {
                        PRes::POk { v: _, end: e } => e,
                        PRes::PFail { err } => p1,
                    };
                    let p3 = spec_opt_blank(input, p2);
                    match spec_const_items(input, p3) {
                        PRes::POk { v: rest, end } => PRes::POk {
                            v: seq![v] + rest,
                            end,
                        },
                        PRes::PFail { err } => PRes::PFail { err },
                    }
                }
            },
        }
    }
}

/// `[ v, v, ... ]` with optional separators.
pub open spec fn spec_const_list(input: Seq<u8>, pos: int) -> PRes<ConstValueV>
    decreases input.len() - pos, 1int,
{
    match spec_ch(input, pos, 91) {
        PRes::PFail { err } => PRes::PFail { err },
        PRes::POk { v: _, end: p0 } => {
            let p1 = spec_opt_blank(input, p0);
            match spec_const_items(input, p1) {
                PRes::PFail { err } => PRes::PFail { err },
                PRes::POk { v: items, end: p2 } => match spec_ch(input, p2, 93) {
                    PRes::PFail { err } => PRes::PFail { err },
                    PRes::POk { v: _, end } => PRes::POk {
                        v: ConstValueV::List(items),
                        end,
                    },
                },
            }
        },
    }
}

/// The `k : v` pairs inside a constant map.
pub open spec fn spec_const_pairs(input: Seq<u8>, pos: int) -> PRes<()>
    decreases input.len() - pos, 3int,
{
    if pos >= input.len() {
        PRes::POk { v: (), end: pos }
    } else {
        match spec_const_value(input, pos) {
            PRes::PFail { err: ParseError::Expected } => PRes::POk { v: (), end: pos },
            PRes::PFail { err } => PRes::PFail { err },
            PRes::POk { v: _, end } => {
                if !(pos < end <= input.len()) {
                    PRes::POk { v: (), end: pos }
                } else {
                    let p1 = spec_opt_blank(input, end);
                    match spec_ch(input, p1, 58) {
                        PRes::PFail { err } => PRes::PFail { err },
                        PRes::POk { v: _, end: p2r } => {
                            let p2 = spec_opt_blank(input, p2r);
                            match spec_const_value(input, p2) {
                                PRes::PFail { err } => PRes::PFail { err },
                                PRes::POk { v: _, end: p3r } => {
                                    if !(pos < p3r <= input.len()) {
                                        PRes::PFail { err: ParseError::Expected }
                                    } else {
                                        let p3 = spec_opt_blank(input, p3r);
                                        let p4 = match spec_list_separator(input, p3) {
                                            PRes::POk { v: _, end: e } => e,
                                            PRes::PFail { err } => p3,
                                        };
                                        let p5 = spec_opt_blank(input, p4);
                                        spec_const_pairs(input, p5)
                                    }
                                },
                            }
                        },
                    }
                }
            },
        }
    }
}

/// `{ k : v, ... }`; the pairs are recognized but not yet kept.
pub open spec fn spec_const_map(input: Seq<u8>, pos: int) -> PRes<ConstValueV>
    decreases input.len() - pos, 1int,
{
    match spec_ch(input, pos, 123) {
        PRes::PFail { err } => PRes::PFail { err },
        PRes::POk { v: _, end: p0 } => {
            let p1 = spec_opt_blank(input, p0);
            match spec_const_pairs(input, p1) {
                PRes::PFail { err } => PRes::PFail { err },
                PRes::POk { v: _, end: p2 } => match spec_ch(input, p2, 125) {
                    PRes::PFail { err } => PRes::PFail { err },
                    PRes::POk { v: _, end } => PRes::POk { v: ConstValueV::Map_, end },
                },
            }
        },
    }
}

pub fn const_value(input: &[u8], pos: usize) -> (r: Result<(ConstValue, usize), ParseError>)
    requires
        pos <= input@.len(),
    ensures
        match spec_const_value(input@, pos as int) {
            PRes::POk { v, end } => r matches Ok((c, e)) && c@ == v && e == end && pos < e
                <= input@.len(),
            PRes::PFail { err } => r == Err::<(ConstValue, usize), ParseError>(err),
        },
    decreases input@.len() - pos, 2int,
{
    match double_constant(input, pos) {
        Ok((s, e)) => Ok((ConstValue::Double(s), e)),
        Err(ParseError::Expected) => match int_constant(input, pos) {
            Ok((i, e)) => Ok((ConstValue::Int(i), e)),
            Err(ParseError::Expected) => match literal(input, pos) {
                Ok((s, e)) => Ok((ConstValue::String(s), e)),
                Err(ParseError::Expected) => match identifier(input, pos) {
                    Ok(_) => Err(ParseError::UnknownKeyword),
                    Err(ParseError::Expected) => match const_list(input, pos) {
                        Ok(x) => Ok(x),
                        Err(ParseError::Expected) => const_map(input, pos),
                        Err(e) => Err(e),
                    },
                    Err(e) => Err(e),
                },
                Err(e) => Err(e),
            },
            Err(e) => Err(e),
        },
        Err(e) => Err(e),
    }
}

/// The items of a constant list.
fn const_items(input: &[u8], pos: usize) -> (r: Result<(Vec<ConstValue>, usize), ParseError>)
    requires
        pos <= input@.len(),
    ensures
        match spec_const_items(input@, pos as int) {
            PRes::POk { v, end } => r matches Ok((vs, e)) && const_values_view(vs@) == v && e
                == end && pos <= e <= input@.len(),
            PRes::PFail { err } => r == Err::<(Vec<ConstValue>, usize), ParseError>(err),
        },
    decreases input@.len() - pos, 3int,
{
    let mut acc: Vec<ConstValue> = Vec::new();
    let mut i = pos;
    proof {
        lemma_const_values_view(Seq::empty());
        assert(acc@ =~= Seq::<ConstValue>::empty());
    }
    loop
        invariant
            pos <= i <= input@.len(),
            spec_const_items(input@, pos as int) == (match spec_const_items(input@, i as int) {
                PRes::POk { v, end } => PRes::POk {
                    v: const_values_view(acc@) + v,
                    end,
                },
                PRes::PFail { err } => PRes::PFail { err },
            }),
        decreases input@.len() - i,
    {
        if i >= input.len() {
            proof {
                assert(const_values_view(acc@) + Seq::<ConstValueV>::empty() =~= const_values_view(
                    acc@,
                ));
            }
            return Ok((acc, i));
        }
        let (v, e1) = match const_value(input, i) {
            Ok(x) => x,
            Err(ParseError::Expected) => {
                proof {
                    assert(const_values_view(acc@) + Seq::<ConstValueV>::empty()
                        =~= const_values_view(acc@));
                }
                return Ok((acc, i));
            },
            Err(e) => { return Err(e); },
        };
        let p1 = opt_blank(input, e1);
        let p2 = match list_separator(input, p1) {
            Ok((_, e)) => e,
            Err(_) => p1,
        };
        let p3 = opt_blank(input, p2);
        proof {
            lemma_const_values_view_push(acc@, v);
            assert forall|rest: Seq<ConstValueV>|
                true implies const_values_view(acc@) + (seq![v@] + rest) =~= const_values_view(
                acc@.push(v),
            ) + rest by {
                lemma_const_values_view_push(acc@, v);
            }
        }
        acc.push(v);
        i = p3;
    }
}

pub fn const_list(input: &[u8], pos: usize) -> (r: Result<(ConstValue, usize), ParseError>)
    requires
        pos <= input@.len(),
    ensures
        match spec_const_list(input@, pos as int) {
            PRes::POk { v, end } => r matches Ok((c, e)) && c@ == v && e == end && pos < e
                <= input@.len(),
            PRes::PFail { err } => r == Err::<(ConstValue, usize), ParseError>(err),
        },
    decreases input@.len() - pos, 1int,
{
    let p0 = match ch(input, pos, 91) {
        Ok((_, e)) => e,
        Err(e) => { return Err(e); },
    };
    let p1 = opt_blank(input, p0);
    let (items, p2) = match const_items(input, p1) {
        Ok(x) => x,
        Err(e) => { return Err(e); },
    };
    match ch(input, p2, 93) {
        Ok((_, end)) => Ok((ConstValue::List(items), end)),
        Err(e) => Err(e),
    }
}

/// The pairs of a constant map; their values are not yet kept.
fn const_pairs(input: &[u8], pos: usize) -> (r: Result<((), usize), ParseError>)
    requires
        pos <= input@.len(),
    ensures
        match spec_const_pairs(input@, pos as int) {
            PRes::POk { v, end } => r matches Ok((u, e)) && e == end && pos <= e <= input@.len(),
            PRes::PFail { err } => r == Err::<((), usize), ParseError>(err),
        },
    decreases input@.len() - pos, 3int,
{
    let mut i = pos;
    loop
        invariant
            pos <= i <= input@.len(),
            spec_const_pairs(input@, pos as int) == spec_const_pairs(input@, i as int),
        decreases input@.len() - i,
    {
        if i >= input.len() {
            return Ok(((), i));
        }
        let (_, e1) = match const_value(input, i) {
            Ok(x) => x,
            Err(ParseError::Expected) => {
                return Ok(((), i));
            },
            Err(e) => { return Err(e); },
        };
        let p1 = opt_blank(input, e1);
        let p2r = match ch(input, p1, 58) {
            Ok((_, e)) => e,
            Err(e) => { return Err(e); },
        };
        let p2 = opt_blank(input, p2r);
        let (_, p3r) = match const_value(input, p2) {
            Ok(x) => x,
            Err(e) => { return Err(e); },
        };
        let p3 = opt_blank(input, p3r);
        let p4 = match list_separator(input, p3) {
            Ok((_, e)) => e,
            Err(_) => p3,
        };
        let p5 = opt_blank(input, p4);
        i = p5;
    }
}

pub fn const_map(input: &[u8], pos: usize) -> (r: Result<(ConstValue, usize), ParseError>)
    requires
        pos <= input@.len(),
    ensures
        match spec_const_map(input@, pos as int) {
            PRes::POk { v, end } => r matches Ok((c, e)) && c@ == v && e == end && pos < e
                <= input@.len(),
            PRes::PFail { err } => r == Err::<(ConstValue, usize), ParseError>(err),
        },
    decreases input@.len() - pos, 1int,
{
    let p0 = match ch(input, pos, 123) {
        Ok((_, e)) => e,
        Err(e) => { return Err(e); },
    };
    let p1 = opt_blank(input, p0);
    let (_, p2) = match const_pairs(input, p1) {
        Ok(x) => x,
        Err(e) => { return Err(e); },
    };
    match ch(input, p2, 125) {
        Ok((_, end)) => Ok((ConstValue::Map_, end)),
        Err(e) => Err(e),
    }
}

// ---------------------------------------------------------------------------
// Struct fields, definitions, and the document, with their views.
// ---------------------------------------------------------------------------

/// One declared field of a struct, union, exception, argument list or
/// throws clause.
#[derive(Debug, PartialEq)]
pub struct StructField {
    pub seq: Option<i64>,
    pub optional: bool,
    pub ty: Ty,
    pub ident: String,
    pub value: Option<ConstValue>,
}

pub struct StructFieldV {
    pub seq: Option<i64>,
    pub optional: bool,
    pub ty: TyV,
    pub ident: Seq<char>,
    pub value: Option<ConstValueV>,
}

pub open spec fn struct_field_view(f: StructField) -> StructFieldV {
    StructFieldV {
        seq: f.seq,
        optional: f.optional,
        ty: ty_view(f.ty),
        ident: f.ident@,
        value: match f.value {
            Option::Some(c) => Some(const_value_view(c)),
            Option::None => None,
        },
    }
}

impl View for StructField {
    type V = StructFieldV;

    open spec fn view(&self) -> StructFieldV {
        struct_field_view(*self)
    }
}

/// One variant of an enum, with its optional explicit index.
#[derive(Debug, PartialEq)]
pub struct Variant {
    pub ident: String,
    pub seq: Option<i64>,
}

pub struct VariantV {
    pub ident: Seq<char>,
    pub seq: Option<i64>,
}

pub open spec fn variant_view(v: Variant) -> VariantV {
    VariantV { ident: v.ident@, seq: v.seq }
}

impl View for Variant {
    type V = VariantV;

    open spec fn view(&self) -> VariantV {
        variant_view(*self)
    }
}

/// The views of a row of fields.
pub open spec fn fields_view(vs: Seq<StructField>) -> Seq<StructFieldV>
    decreases vs,
{
    if vs.len() == 0 {
        Seq::empty()
    } else {
        seq![struct_field_view(vs[0])] + fields_view(vs.subrange(1, vs.len() as int))
    }
}

pub proof fn lemma_fields_view(vs: Seq<StructField>)
    ensures
        fields_view(vs).len() == vs.len(),
        forall|i: int|
            0 <= i < vs.len() ==> fields_view(vs)[i] == struct_field_view(#[trigger] vs[i]),
    decreases vs.len(),
{
    if vs.len() > 0 {
        let rest = vs.subrange(1, vs.len() as int);
        lemma_fields_view(rest);
        assert forall|i: int| 0 <= i < vs.len() implies fields_view(vs)[i] == struct_field_view(
            #[trigger] vs[i],
        ) by {
            if i > 0 {
                assert(rest[i - 1] == vs[i]);
                assert(fields_view(vs)[i] == fields_view(rest)[i - 1]);
            }
        }
    }
}

pub proof fn lemma_fields_view_push(vs: Seq<StructField>, x: StructField)
    ensures
        fields_view(vs.push(x)) == fields_view(vs).push(struct_field_view(x)),
{
    lemma_fields_view(vs.push(x));
    lemma_fields_view(vs);
    assert forall|i: int| 0 <= i < vs.len() + 1 implies fields_view(vs.push(x))[i]
        == fields_view(vs).push(struct_field_view(x))[i] by {
        if i < vs.len() {
            assert(vs.push(x)[i] == vs[i]);
        } else {
            assert(vs.push(x)[i] == x);
        }
    }
    assert(fields_view(vs.push(x)) =~= fields_view(vs).push(struct_field_view(x)));
}

/// The views of a row of variants.
pub open spec fn variants_view(vs: Seq<Variant>) -> Seq<VariantV>
    decreases vs,
{
    if vs.len() == 0 {
        Seq::empty()
    } else {
        seq![variant_view(vs[0])] + variants_view(vs.subrange(1, vs.len() as int))
    }
}

pub proof fn lemma_variants_view(vs: Seq<Variant>)
    ensures
        variants_view(vs).len() == vs.len(),
        forall|i: int|
            0 <= i < vs.len() ==> variants_view(vs)[i] == variant_view(#[trigger] vs[i]),
    decreases vs.len(),
{
    if vs.len() > 0 {
        let rest = vs.subrange(1, vs.len() as int);
        lemma_variants_view(rest);
        assert forall|i: int| 0 <= i < vs.len() implies variants_view(vs)[i] == variant_view(
            #[trigger] vs[i],
        ) by {
            if i > 0 {
                assert(rest[i - 1] == vs[i]);
                assert(variants_view(vs)[i] == variants_view(rest)[i - 1]);
            }
        }
    }
}

pub proof fn lemma_variants_view_push(vs: Seq<Variant>, x: Variant)
    ensures
        variants_view(vs.push(x)) == variants_view(vs).push(variant_view(x)),
{
    lemma_variants_view(vs.push(x));
    lemma_variants_view(vs);
    assert forall|i: int| 0 <= i < vs.len() + 1 implies variants_view(vs.push(x))[i]
        == variants_view(vs).push(variant_view(x))[i] by {
        if i < vs.len() {
            assert(vs.push(x)[i] == vs[i]);
        } else {
            assert(vs.push(x)[i] == x);
        }
    }
    assert(variants_view(vs.push(x)) =~= variants_view(vs).push(variant_view(x)));
}

/// An enum definition.
#[derive(Debug, PartialEq)]
pub struct Enum {
    pub ident: String,
    pub variants: Vec<Variant>,
}

pub struct EnumV {
    pub ident: Seq<char>,
    pub variants: Seq<VariantV>,
}

impl View for Enum {
    type V = EnumV;

    open spec fn view(&self) -> EnumV {
        EnumV { ident: self.ident@, variants: variants_view(self.variants@) }
    }
}

/// A struct definition.
#[derive(Debug, PartialEq)]
pub struct Struct {
    pub ident: String,
    pub fields: Vec<StructField>,
}

pub struct StructV {
    pub ident: Seq<char>,
    pub fields: Seq<StructFieldV>,
}

impl View for Struct {
    type V = StructV;

    open spec fn view(&self) -> StructV {
        StructV { ident: self.ident@, fields: fields_view(self.fields@) }
    }
}

/// A union definition; the generator reports it as not supported.
#[derive(Debug, PartialEq)]
pub struct Union {
    pub ident: String,
    pub fields: Vec<StructField>,
}

pub struct UnionV {
    pub ident: Seq<char>,
    pub fields: Seq<StructFieldV>,
}

impl View for Union {
    type V = UnionV;

    open spec fn view(&self) -> UnionV {
        UnionV { ident: self.ident@, fields: fields_view(self.fields@) }
    }
}

/// An exception definition; the generator reports it as not supported.
#[derive(Debug, PartialEq)]
pub struct Exception {
    pub ident: String,
    pub fields: Vec<StructField>,
}

pub struct ExceptionV {
    pub ident: Seq<char>,
    pub fields: Seq<StructFieldV>,
}

impl View for Exception {
    type V = ExceptionV;

    open spec fn view(&self) -> ExceptionV {
        ExceptionV { ident: self.ident@, fields: fields_view(self.fields@) }
    }
}

/// A typedef definition.
#[derive(Debug, PartialEq)]
pub struct Typedef {
    pub ty: Ty,
    pub ident: String,
}

pub struct TypedefV {
    pub ty: TyV,
    pub ident: Seq<char>,
}

impl View for Typedef {
    type V = TypedefV;

    open spec fn view(&self) -> TypedefV {
        TypedefV { ty: ty_view(self.ty), ident: self.ident@ }
    }
}

/// A constant definition.
#[derive(Debug, PartialEq)]
pub struct Const {
    pub ident: String,
    pub ty: Ty,
    pub value: ConstValue,
}

pub struct ConstV {
    pub ident: Seq<char>,
    pub ty: TyV,
    pub value: ConstValueV,
}

impl View for Const {
    type V = ConstV;

    open spec fn view(&self) -> ConstV {
        ConstV {
            ident: self.ident@,
            ty: ty_view(self.ty),
            value: const_value_view(self.value),
        }
    }
}

/// A namespace header: the target language's tag and the module name.
#[derive(Debug, PartialEq)]
pub struct Namespace {
    pub lang: String,
    pub module: String,
}

pub struct NamespaceV {
    pub lang: Seq<char>,
    pub module: Seq<char>,
}

impl View for Namespace {
    type V = NamespaceV;

    open spec fn view(&self) -> NamespaceV {
        NamespaceV { lang: self.lang@, module: self.module@ }
    }
}

/// An include header.
#[derive(Debug, PartialEq)]
pub struct Include {
    pub path: String,
}

pub struct IncludeV {
    pub path: Seq<char>,
}

impl View for Include {
    type V = IncludeV;

    open spec fn view(&self) -> IncludeV {
        IncludeV { path: self.path@ }
    }
}

/// One method of a service.
#[derive(Debug, PartialEq)]
pub struct ServiceMethod {
    pub oneway: bool,
    pub ident: String,
    pub ty: Ty,
    pub args: Vec<StructField>,
    pub throws: Option<Vec<StructField>>,
}

pub struct ServiceMethodV {
    pub oneway: bool,
    pub ident: Seq<char>,
    pub ty: TyV,
    pub args: Seq<StructFieldV>,
    pub throws: Option<Seq<StructFieldV>>,
}

pub open spec fn service_method_view(m: ServiceMethod) -> ServiceMethodV {
    ServiceMethodV {
        oneway: m.oneway,
        ident: m.ident@,
        ty: ty_view(m.ty),
        args: fields_view(m.args@),
        throws: match m.throws {
            Option::Some(fs) => Some(fields_view(fs@)),
            Option::None => None,
        },
    }
}

impl View for ServiceMethod {
    type V = ServiceMethodV;

    open spec fn view(&self) -> ServiceMethodV {
        service_method_view(*self)
    }
}

/// The views of a row of methods.
pub open spec fn methods_view(vs: Seq<ServiceMethod>) -> Seq<ServiceMethodV>
    decreases vs,
{
    if vs.len() == 0 {
        Seq::empty()
    } else {
        seq![service_method_view(vs[0])] + methods_view(vs.subrange(1, vs.len() as int))
    }
}

pub proof fn lemma_methods_view(vs: Seq<ServiceMethod>)
    ensures
        methods_view(vs).len() == vs.len(),
        forall|i: int|
            0 <= i < vs.len() ==> methods_view(vs)[i] == service_method_view(#[trigger] vs[i]),
    decreases vs.len(),
{
    if vs.len() > 0 {
        let rest = vs.subrange(1, vs.len() as int);
        lemma_methods_view(rest);
        assert forall|i: int| 0 <= i < vs.len() implies methods_view(vs)[i] == service_method_view(
            #[trigger] vs[i],
        ) by {
            if i > 0 {
                assert(rest[i - 1] == vs[i]);
                assert(methods_view(vs)[i] == methods_view(rest)[i - 1]);
            }
        }
    }
}

pub proof fn lemma_methods_view_push(vs: Seq<ServiceMethod>, x: ServiceMethod)
    ensures
        methods_view(vs.push(x)) == methods_view(vs).push(service_method_view(x)),
{
    lemma_methods_view(vs.push(x));
    lemma_methods_view(vs);
    assert forall|i: int| 0 <= i < vs.len() + 1 implies methods_view(vs.push(x))[i]
        == methods_view(vs).push(service_method_view(x))[i] by {
        if i < vs.len() {
            assert(vs.push(x)[i] == vs[i]);
        } else {
            assert(vs.push(x)[i] == x);
        }
    }
    assert(methods_view(vs.push(x)) =~= methods_view(vs).push(service_method_view(x)));
}

/// A service definition.
#[derive(Debug, PartialEq)]
pub struct Service {
    pub extends: Option<String>,
    pub ident: String,
    pub methods: Vec<ServiceMethod>,
}

pub struct ServiceV {
    pub extends: Option<Seq<char>>,
    pub ident: Seq<char>,
    pub methods: Seq<ServiceMethodV>,
}

impl View for Service {
    type V = ServiceV;

    open spec fn view(&self) -> ServiceV {
        ServiceV {
            extends: match self.extends {
                Option::Some(ref s) => Some(s@),
                Option::None => None,
            },
            ident: self.ident@,
            methods: methods_view(self.methods@),
        }
    }
}

/// A header: an include or a namespace.
#[derive(Debug, PartialEq)]
pub enum Header {
    Include(Include),
    Namespace(Namespace),
}

pub enum HeaderV {
    Include(IncludeV),
    Namespace(NamespaceV),
}

pub open spec fn header_view(h: Header) -> HeaderV {
    match h {
        Header::Include(i) => HeaderV::Include(IncludeV { path: i.path@ }),
        Header::Namespace(n) => HeaderV::Namespace(
            NamespaceV { lang: n.lang@, module: n.module@ },
        ),
    }
}

impl View for Header {
    type V = HeaderV;

    open spec fn view(&self) -> HeaderV {
        header_view(*self)
    }
}

/// A top-level definition.
#[derive(Debug, PartialEq)]
pub enum Definition {
    Const(Const),
    Typedef(Typedef),
    Enum(Enum),
    Struct(Struct),
    Union(Union),
    Exception(Exception),
    Service(Service),
}

pub enum DefinitionV {
    Const(ConstV),
    Typedef(TypedefV),
    Enum(EnumV),
    Struct(StructV),
    Union(UnionV),
    Exception(ExceptionV),
    Service(ServiceV),
}

pub open spec fn definition_view(d: Definition) -> DefinitionV {
    match d {
        Definition::Const(x) => DefinitionV::Const(
            ConstV { ident: x.ident@, ty: ty_view(x.ty), value: const_value_view(x.value) },
        ),
        Definition::Typedef(x) => DefinitionV::Typedef(
            TypedefV { ty: ty_view(x.ty), ident: x.ident@ },
        ),
        Definition::Enum(x) => DefinitionV::Enum(
            EnumV { ident: x.ident@, variants: variants_view(x.variants@) },
        ),
        Definition::Struct(x) => DefinitionV::Struct(
            StructV { ident: x.ident@, fields: fields_view(x.fields@) },
        ),
        Definition::Union(x) => DefinitionV::Union(
            UnionV { ident: x.ident@, fields: fields_view(x.fields@) },
        ),
        Definition::Exception(x) => DefinitionV::Exception(
            ExceptionV { ident: x.ident@, fields: fields_view(x.fields@) },
        ),
        Definition::Service(x) => DefinitionV::Service(
            ServiceV {
                extends: match x.extends {
                    Option::Some(s) => Some(s@),
                    Option::None => None,
                },
                ident: x.ident@,
                methods: methods_view(x.methods@),
            },
        ),
    }
}

impl View for Definition {
    type V = DefinitionV;

    open spec fn view(&self) -> DefinitionV {
        definition_view(*self)
    }
}

/// The views of a row of headers.
pub open spec fn headers_view(vs: Seq<Header>) -> Seq<HeaderV>
    decreases vs,
{
    if vs.len() == 0 {
        Seq::empty()
    } else {
        seq![header_view(vs[0])] + headers_view(vs.subrange(1, vs.len() as int))
    }
}

pub proof fn lemma_headers_view(vs: Seq<Header>)
    ensures
        headers_view(vs).len() == vs.len(),
        forall|i: int|
            0 <= i < vs.len() ==> headers_view(vs)[i] == header_view(#[trigger] vs[i]),
    decreases vs.len(),
{
    if vs.len() > 0 {
        let rest = vs.subrange(1, vs.len() as int);
        lemma_headers_view(rest);
        assert forall|i: int| 0 <= i < vs.len() implies headers_view(vs)[i] == header_view(
            #[trigger] vs[i],
        ) by {
            if i > 0 {
                assert(rest[i - 1] == vs[i]);
                assert(headers_view(vs)[i] == headers_view(rest)[i - 1]);
            }
        }
    }
}

pub proof fn lemma_headers_view_push(vs: Seq<Header>, x: Header)
    ensures
        headers_view(vs.push(x)) == headers_view(vs).push(header_view(x)),
{
    lemma_headers_view(vs.push(x));
    lemma_headers_view(vs);
    assert forall|i: int| 0 <= i < vs.len() + 1 implies headers_view(vs.push(x))[i]
        == headers_view(vs).push(header_view(x))[i] by {
        if i < vs.len() {
            assert(vs.push(x)[i] == vs[i]);
        } else {
            assert(vs.push(x)[i] == x);
        }
    }
    assert(headers_view(vs.push(x)) =~= headers_view(vs).push(header_view(x)));
}

/// The views of a row of definitions.
pub open spec fn definitions_view(vs: Seq<Definition>) -> Seq<DefinitionV>
    decreases vs,
{
    if vs.len() == 0 {
        Seq::empty()
    } else {
        seq![definition_view(vs[0])] + definitions_view(vs.subrange(1, vs.len() as int))
    }
}

pub proof fn lemma_definitions_view(vs: Seq<Definition>)
    ensures
        definitions_view(vs).len() == vs.len(),
        forall|i: int|
            0 <= i < vs.len() ==> definitions_view(vs)[i] == definition_view(#[trigger] vs[i]),
    decreases vs.len(),
{
    if vs.len() > 0 {
        let rest = vs.subrange(1, vs.len() as int);
        lemma_definitions_view(rest);
        assert forall|i: int| 0 <= i < vs.len() implies definitions_view(vs)[i] == definition_view(
            #[trigger] vs[i],
        ) by {
            if i > 0 {
                assert(rest[i - 1] == vs[i]);
                assert(definitions_view(vs)[i] == definitions_view(rest)[i - 1]);
            }
        }
    }
}

pub proof fn lemma_definitions_view_push(vs: Seq<Definition>, x: Definition)
    ensures
        definitions_view(vs.push(x)) == definitions_view(vs).push(definition_view(x)),
{
    lemma_definitions_view(vs.push(x));
    lemma_definitions_view(vs);
    assert forall|i: int| 0 <= i < vs.len() + 1 implies definitions_view(vs.push(x))[i]
        == definitions_view(vs).push(definition_view(x))[i] by {
        if i < vs.len() {
            assert(vs.push(x)[i] == vs[i]);
        } else {
            assert(vs.push(x)[i] == x);
        }
    }
    assert(definitions_view(vs.push(x)) =~= definitions_view(vs).push(definition_view(x)));
}

/// A parsed document: its headers, then its definitions, in input order.
#[derive(Debug, PartialEq)]
pub struct Document {
    pub headers: Vec<Header>,
    pub definitions: Vec<Definition>,
}

pub struct DocumentV {
    pub headers: Seq<HeaderV>,
    pub definitions: Seq<DefinitionV>,
}

impl View for Document {
    type V = DocumentV;

    open spec fn view(&self) -> DocumentV {
        DocumentV {
            headers: headers_view(self.headers@),
            definitions: definitions_view(self.definitions@),
        }
    }
}

// ---------------------------------------------------------------------------
// Fields and methods.
// ---------------------------------------------------------------------------

/// A field id: an integer, optional blank, then a colon.
pub open spec fn spec_field_id(input: Seq<u8>, pos: int) -> PRes<i64> {
    match spec_int_constant(input, pos) {
        PRes::PFail { err } => PRes::PFail { err },
        PRes::POk { v, end } => {
            if !(pos < end <= input.len()) {
                PRes::PFail { err: ParseError::Expected }
            } else {
                let p1 = spec_opt_blank(input, end);
                match spec_ch(input, p1, 58) {
                    PRes::PFail { err } => PRes::PFail { err },
                    PRes::POk { v: _, end: e } => PRes::POk { v, end: e },
                }
            }
        },
    }
}

pub fn field_id(input: &[u8], pos: usize) -> (r: Result<(i64, usize), ParseError>)
    requires
        pos <= input@.len(),
    ensures
        match spec_field_id(input@, pos as int) {
            PRes::POk { v, end } => r matches Ok((x, e)) && x == v && e == end && pos < e
                <= input@.len(),
            PRes::PFail { err } => r == Err::<(i64, usize), ParseError>(err),
        },
{
    let (v, e1) = match int_constant(input, pos) {
        Ok(x) => x,
        Err(e) => { return Err(e); },
    };
    let p1 = opt_blank(input, e1);
    match ch(input, p1, 58) {
        Ok((_, e)) => Ok((v, e)),
        Err(e) => Err(e),
    }
}

/// A requiredness marker; `optional` is recorded as true, `required` as
/// false, which is also the default without a marker.
pub open spec fn spec_field_req(input: Seq<u8>, pos: int) -> PRes<bool> {
    if spec_tag(input, pos, kw_required()) {
        PRes::POk { v: false, end: pos + 8 }
    } else if spec_tag(input, pos, kw_optional()) {
        PRes::POk { v: true, end: pos + 8 }
    } else if pos >= input.len() {
        PRes::PFail { err: ParseError::UnexpectedEof }
    } else {
        PRes::PFail { err: ParseError::Expected }
    }
}

pub fn field_req(input: &[u8], pos: usize) -> (r: Result<(bool, usize), ParseError>)
    requires
        pos <= input@.len(),
    ensures
        match spec_field_req(input@, pos as int) {
            PRes::POk { v, end } => r matches Ok((b, e)) && b == v && e == end && pos < e
                <= input@.len(),
            PRes::PFail { err } => r == Err::<(bool, usize), ParseError>(err),
        },
{
    let n = input.len();
    if tag_required(input, pos) {
        Ok((false, pos + 8))
    } else if tag_optional(input, pos) {
        Ok((true, pos + 8))
    } else if pos >= n {
        Err(ParseError::UnexpectedEof)
    } else {
        Err(ParseError::Expected)
    }
}

/// A field: an optional id, an optional requiredness marker, a type, a
/// name, an optional default value, and an optional trailing separator.
#[verifier::opaque]
pub open spec fn spec_field(input: Seq<u8>, pos: int) -> PRes<StructFieldV>
    decreases input.len() - pos, 4int,
{
    let idx = match spec_field_id(input, pos) {
        PRes::POk { v, end } => Some(v),
        PRes::PFail { err } => None,
    };
    let p1 = match spec_field_id(input, pos) {
        PRes::POk { v, end } => {
            if pos <= end <= input.len() {
                spec_opt_blank(input, end)
            } else {
                pos
            }
        },
        PRes::PFail { err } => pos,
    };
    let req_step = match spec_field_req(input, p1) {
        PRes::POk { v, end } => {
            if p1 <= end <= input.len() {
                match spec_blank(input, end) {
                    PRes::POk { v: _, end: e2 } => Some((v, e2)),
                    PRes::PFail { err } => None,
                }
            } else {
                None
            }
        },
        PRes::PFail { err } => None,
    };
    let req = match req_step {
        Option::Some((v, _)) => Some(v),
        Option::None => None,
    };
    let p2 = match req_step {
        Option::Some((_, e)) => {
            if p1 <= e <= input.len() {
                e
            } else {
                p1
            }
        },
        Option::None => p1,
    };
    match spec_field_type(input, p2) {
        PRes::PFail { err } => PRes::PFail { err },
        PRes::POk { v: fty, end: p3 } => {
            if !(p2 < p3 <= input.len()) {
                PRes::PFail { err: ParseError::Expected }
            } else {
                match spec_blank(input, p3) {
                    PRes::PFail { err } => PRes::PFail { err },
                    PRes::POk { v: _, end: p4r } => {
                        let p4 = if p3 <= p4r <= input.len() {
                            p4r
                        } else {
                            p3
                        };
                        match spec_identifier(input, p4) {
                            PRes::PFail { err } => PRes::PFail { err },
                            PRes::POk { v: id, end: p5r } => {
                                let p5 = spec_opt_blank(input, p5r);
                                let val_step = match spec_ch(input, p5, 61) {
                                    PRes::POk { v: _, end: e } => {
                                        let p6 = spec_opt_blank(input, e);
                                        match spec_const_value(input, p6) {
                                            PRes::POk { v: cv, end: e2 } => Some((cv, e2)),
                                            PRes::PFail { err } => None,
                                        }
                                    },
                                    PRes::PFail { err } => None,
                                };
                                let value = match val_step {
                                    Option::Some((cv, _)) => Some(cv),
                                    Option::None => None,
                                };
                                let p7 = match val_step {
                                    Option::Some((_, e)) => {
                                        if p5 <= e <= input.len() {
                                            e
                                        } else {
                                            p5
                                        }
                                    },
                                    Option::None => p5,
                                };
                                let end = match spec_list_separator(input, p7) {
                                    PRes::POk { v: _, end: e } => e,
                                    PRes::PFail { err } => p7,
                                };
                                PRes::POk {
                                    v: StructFieldV {
                                        seq: idx,
                                        optional: match req {
                                            Option::Some(b) => b,
                                            Option::None => false,
                                        },
                                        ty: fty,
                                        ident: id,
                                        value,
                                    },
                                    end,
                                }
                            },
                        }
                    },
                }
            }
        },
    }
}

#[verifier::rlimit(60)]
#[verifier::spinoff_prover]
pub fn field(input: &[u8], pos: usize) -> (r: Result<(StructField, usize), ParseError>)
    requires
        pos <= input@.len(),
    ensures
        match spec_field(input@, pos as int) {
            PRes::POk { v, end } => r matches Ok((f, e)) && f@ == v && e == end && pos < e
                <= input@.len(),
            PRes::PFail { err } => r == Err::<(StructField, usize), ParseError>(err),
        },
    decreases input@.len() - pos, 4int,
{
    proof {
        reveal(spec_field);
    }
    let (idx, p1) = match field_id(input, pos) {
        Ok((v, e)) => (Some(v), opt_blank(input, e)),
        Err(_) => (None, pos),
    };
    let (req, p2) = match field_req(input, p1) {
        Ok((v, e)) => match blank(input, e) {
            Ok((_, e2)) => (Some(v), e2),
            Err(_) => (None, p1),
        },
        Err(_) => (None, p1),
    };
    let (fty, p3) = match field_type(input, p2) {
        Ok(x) => x,
        Err(e) => { return Err(e); },
    };
    let p4 = match blank(input, p3) {
        Ok((_, e)) => e,
        Err(e) => { return Err(e); },
    };
    let (id, p5r) = match identifier(input, p4) {
        Ok(x) => x,
        Err(e) => { return Err(e); },
    };
    let p5 = opt_blank(input, p5r);
    let (value, p7) = match ch(input, p5, 61) {
        Ok((_, e)) => {
            let p6 = opt_blank(input, e);
            match const_value(input, p6) {
                Ok((cv, e2)) => (Some(cv), e2),
                Err(_) => (None, p5),
            }
        },
        Err(_) => (None, p5),
    };
    let end = match list_separator(input, p7) {
        Ok((_, e)) => e,
        Err(_) => p7,
    };
    Ok((
        StructField {
            seq: idx,
            optional: match req {
                Some(b) => b,
                None => false,
            },
            ty: fty,
            ident: id,
            value,
        },
        end,
    ))
}

/// A method's return type: `void` or any field type.
pub open spec fn spec_function_type(input: Seq<u8>, pos: int) -> PRes<TyV> {
    if spec_tag(input, pos, kw_void()) {
        PRes::POk { v: TyV::Void, end: pos + 4 }
    } else {
        spec_field_type(input, pos)
    }
}

pub fn function_type(input: &[u8], pos: usize) -> (r: Result<(Ty, usize), ParseError>)
    requires
        pos <= input@.len(),
    ensures
        match spec_function_type(input@, pos as int) {
            PRes::POk { v, end } => r matches Ok((t, e)) && t@ == v && e == end && pos < e
                <= input@.len(),
            PRes::PFail { err } => r == Err::<(Ty, usize), ParseError>(err),
        },
{
    let n = input.len();
    if tag_void(input, pos) {
        Ok((Ty::Void, pos + 4))
    } else {
        field_type(input, pos)
    }
}

/// The fields inside a parenthesized list, each followed by optional blank.
pub open spec fn spec_paren_fields(input: Seq<u8>, pos: int) -> PRes<Seq<StructFieldV>>
    decreases input.len() - pos, 5int,
{
    if pos >= input.len() {
        PRes::POk { v: Seq::empty(), end: pos }
    } else {
        match spec_field(input, pos) {
            PRes::PFail { err: ParseError::Expected } => PRes::POk { v: Seq::empty(), end: pos },
            PRes::PFail { err } => PRes::PFail { err },
            PRes::POk { v, end } => {
                if !(pos < end <= input.len()) {
                    PRes::POk { v: Seq::empty(), end: pos }
                } else {
                    let p1 = spec_opt_blank(input, end);
                    match spec_paren_fields(input, p1) {
                        PRes::POk { v: rest, end: e } => PRes::POk { v: seq![v] + rest, end: e },
                        PRes::PFail { err } => PRes::PFail { err },
                    }
                }
            },
        }
    }
}

/// Parses `field blank?` until no field stands here.
fn paren_fields(input: &[u8], pos: usize) -> (r: Result<(Vec<StructField>, usize), ParseError>)
    requires
        pos <= input@.len(),
    ensures
        match spec_paren_fields(input@, pos as int) {
            PRes::POk { v, end } => r matches Ok((fs, e)) && fields_view(fs@) == v && e == end
                && pos <= e <= input@.len(),
            PRes::PFail { err } => r == Err::<(Vec<StructField>, usize), ParseError>(err),
        },
    decreases input@.len() - pos, 5int,
{
    let mut acc: Vec<StructField> = Vec::new();
    let mut i = pos;
    proof {
        lemma_fields_view(Seq::empty());
        assert(acc@ =~= Seq::<StructField>::empty());
    }
    loop
        invariant
            pos <= i <= input@.len(),
            spec_paren_fields(input@, pos as int) == (match spec_paren_fields(
                input@,
                i as int,
            ) {
                PRes::POk { v, end } => PRes::POk { v: fields_view(acc@) + v, end },
                PRes::PFail { err } => PRes::PFail { err },
            }),
        decreases input@.len() - i,
    {
        if i >= input.len() {
            proof {
                assert(fields_view(acc@) + Seq::<StructFieldV>::empty() =~= fields_view(acc@));
            }
            return Ok((acc, i));
        }
        let (f, e1) = match field(input, i) {
            Ok(x) => x,
            Err(ParseError::Expected) => {
                proof {
                    assert(fields_view(acc@) + Seq::<StructFieldV>::empty() =~= fields_view(
                        acc@,
                    ));
                }
                return Ok((acc, i));
            },
            Err(e) => { return Err(e); },
        };
        let p1 = opt_blank(input, e1);
        proof {
            lemma_fields_view_push(acc@, f);
            assert forall|rest: Seq<StructFieldV>|
                true implies fields_view(acc@) + (seq![f@] + rest) =~= fields_view(acc@.push(f))
                + rest by {
                lemma_fields_view_push(acc@, f);
            }
        }
        acc.push(f);
        i = p1;
    }
}

/// A throws clause: the keyword, then a parenthesized field list.
pub open spec fn spec_throws(input: Seq<u8>, pos: int) -> PRes<Seq<StructFieldV>>
    decreases input.len() - pos, 6int,
{
    if !spec_tag(input, pos, kw_throws()) {
        if pos >= input.len() {
            PRes::PFail { err: ParseError::UnexpectedEof }
        } else {
            PRes::PFail { err: ParseError::Expected }
        }
    } else {
        let p1 = spec_opt_blank(input, pos + 6);
        match spec_ch(input, p1, 40) {
            PRes::PFail { err } => PRes::PFail { err },
            PRes::POk { v: _, end: p2r } => {
                let p2 = spec_opt_blank(input, p2r);
                match spec_paren_fields(input, p2) {
                    PRes::PFail { err } => PRes::PFail { err },
                    PRes::POk { v: fs, end: p3 } => match spec_ch(input, p3, 41) {
                        PRes::PFail { err } => PRes::PFail { err },
                        PRes::POk { v: _, end } => PRes::POk { v: fs, end },
                    },
                }
            },
        }
    }
}

pub fn throws(input: &[u8], pos: usize) -> (r: Result<(Vec<StructField>, usize), ParseError>)
    requires
        pos <= input@.len(),
    ensures
        match spec_throws(input@, pos as int) {
            PRes::POk { v, end } => r matches Ok((fs, e)) && fields_view(fs@) == v && e == end
                && pos < e <= input@.len(),
            PRes::PFail { err } => r == Err::<(Vec<StructField>, usize), ParseError>(err),
        },
    decreases input@.len() - pos, 6int,
{
    let n = input.len();
    if !tag_throws(input, pos) {
        if pos >= n {
            return Err(ParseError::UnexpectedEof);
        }
        return Err(ParseError::Expected);
    }
    let p1 = opt_blank(input, pos + 6);
    let p2r = match ch(input, p1, 40) {
        Ok((_, e)) => e,
        Err(e) => { return Err(e); },
    };
    let p2 = opt_blank(input, p2r);
    let (fs, p3) = match paren_fields(input, p2) {
        Ok(x) => x,
        Err(e) => { return Err(e); },
    };
    match ch(input, p3, 41) {
        Ok((_, end)) => Ok((fs, end)),
        Err(e) => Err(e),
    }
}

/// What stands after a method's closing parenthesis: an optional throws
/// clause and an optional trailing separator.
#[verifier::opaque]
pub open spec fn spec_function_tail(
    input: Seq<u8>,
    p6: int,
    ow: bool,
    id: Seq<char>,
    rty: TyV,
    args: Seq<StructFieldV>,
) -> PRes<ServiceMethodV>
    decreases input.len() - p6, 7int,
{
    let th_step = {
        let q = spec_opt_blank(input, p6);
        if p6 <= q <= input.len() {
            match spec_throws(input, q) {
                PRes::POk { v: fs, end: e } => Some((fs, e)),
                PRes::PFail { err } => None,
            }
        } else {
            None
        }
    };
    let th = match th_step {
        Option::Some((fs, _)) => Some(fs),
        Option::None => None,
    };
    let p7 = match th_step {
        Option::Some((_, e)) => {
            if p6 <= e <= input.len() {
                e
            } else {
                p6
            }
        },
        Option::None => p6,
    };
    let end = {
        let q = spec_opt_blank(input, p7);
        match spec_list_separator(input, q) {
            PRes::POk { v: _, end: e } => e,
            PRes::PFail { err } => p7,
        }
    };
    PRes::POk { v: ServiceMethodV { oneway: ow, ident: id, ty: rty, args, throws: th }, end }
}

/// A service method: an optional `oneway`, a return type, a name, the
/// parenthesized arguments, an optional throws clause, and an optional
/// trailing separator. The steps are spelled out one helper per token.
#[verifier::opaque]
pub open spec fn spec_function(input: Seq<u8>, pos: int) -> PRes<ServiceMethodV>
    decreases input.len() - pos, 10int,
{
    let ow = spec_tag(input, pos, kw_oneway());
    let p0 = if ow {
        spec_opt_blank(input, pos + 6)
    } else {
        pos
    };
    if pos <= p0 <= input.len() {
        spec_fun_type_step(input, ow, p0)
    } else {
        PRes::PFail { err: ParseError::Expected }
    }
}

#[verifier::opaque]
pub open spec fn spec_fun_type_step(input: Seq<u8>, ow: bool, p0: int) -> PRes<ServiceMethodV>
    decreases input.len() - p0, 9int,
{
    match spec_function_type(input, p0) {
        PRes::PFail { err } => PRes::PFail { err },
        PRes::POk { v: rty, end: p1 } => {
            if !(p0 < p1 <= input.len()) {
                PRes::PFail { err: ParseError::Expected }
            } else {
                spec_fun_blank_step(input, ow, rty, p1)
            }
        },
    }
}

#[verifier::opaque]
pub open spec fn spec_fun_blank_step(input: Seq<u8>, ow: bool, rty: TyV, p1: int) -> PRes<
    ServiceMethodV,
>
    decreases input.len() - p1, 9int,
{
    match spec_blank(input, p1) {
        PRes::PFail { err } => PRes::PFail { err },
        PRes::POk { v: _, end: p2r } => {
            let p2 = if p1 <= p2r <= input.len() {
                p2r
            } else {
                p1
            };
            spec_fun_name_step(input, ow, rty, p2)
        },
    }
}

#[verifier::opaque]
pub open spec fn spec_fun_name_step(input: Seq<u8>, ow: bool, rty: TyV, p2: int) -> PRes<
    ServiceMethodV,
>
    decreases input.len() - p2, 8int,
{
    match spec_identifier(input, p2) {
        PRes::PFail { err } => PRes::PFail { err },
        PRes::POk { v: id, end: p3r } => {
            if !(p2 <= p3r <= input.len()) {
                PRes::PFail { err: ParseError::Expected }
            } else {
                let p3 = spec_opt_blank(input, p3r);
                match spec_ch(input, p3, 40) {
                    PRes::PFail { err } => PRes::PFail { err },
                    PRes::POk { v: _, end: p4r } => {
                        let p4 = spec_opt_blank(input, p4r);
                        spec_fun_args_step(input, ow, rty, id, p4)
                    },
                }
            }
        },
    }
}

#[verifier::opaque]
pub open spec fn spec_fun_args_step(
    input: Seq<u8>,
    ow: bool,
    rty: TyV,
    id: Seq<char>,
    p4: int,
) -> PRes<ServiceMethodV>
    decreases input.len() - p4, 7int,
{
    if !(0 <= p4 <= input.len()) {
        PRes::PFail { err: ParseError::Expected }
    } else {
        match spec_paren_fields(input, p4) {
            PRes::PFail { err } => PRes::PFail { err },
            PRes::POk { v: args, end: p5 } => match spec_ch(input, p5, 41) {
                PRes::PFail { err } => PRes::PFail { err },
                PRes::POk { v: _, end: p6 } => {
                    if p6 <= input.len() {
                        spec_function_tail(input, p6, ow, id, rty, args)
                    } else {
                        PRes::PFail { err: ParseError::Expected }
                    }
                },
            },
        }
    }
}

#[verifier::rlimit(60)]
#[verifier::spinoff_prover]
pub fn function(input: &[u8], pos: usize) -> (r: Result<(ServiceMethod, usize), ParseError>)
    requires
        pos <= input@.len(),
    ensures
        match spec_function(input@, pos as int) {
            PRes::POk { v, end } => r matches Ok((m, e)) && m@ == v && e == end && pos < e
                <= input@.len(),
            PRes::PFail { err } => r == Err::<(ServiceMethod, usize), ParseError>(err),
        },
    decreases input@.len() - pos, 10int,
{
    let n = input.len();
    let ow = tag_oneway(input, pos);
    let p0 = if ow {
        opt_blank(input, pos + 6)
    } else {
        pos
    };
    proof {
        reveal(spec_function);
        assert(spec_function(input@, pos as int) == spec_fun_type_step(input@, ow, p0 as int));
    }
    proof {
        reveal(spec_fun_type_step);
    }
    let (rty, p1) = match function_type(input, p0) {
        Ok(x) => x,
        Err(e) => { return Err(e); },
    };
    proof {
        assert(spec_function(input@, pos as int) == spec_fun_blank_step(
            input@,
            ow,
            rty@,
            p1 as int,
        ));
        reveal(spec_fun_blank_step);
    }
    let p2 = match blank(input, p1) {
        Ok((_, e)) => e,
        Err(e) => { return Err(e); },
    };
    proof {
        assert(spec_function(input@, pos as int) == spec_fun_name_step(
            input@,
            ow,
            rty@,
            p2 as int,
        ));
        reveal(spec_fun_name_step);
    }
    let (id, p3r) = match identifier(input, p2) {
        Ok(x) => x,
        Err(e) => { return Err(e); },
    };
    let p3 = opt_blank(input, p3r);
    let p4r = match ch(input, p3, 40) {
        Ok((_, e)) => e,
        Err(e) => { return Err(e); },
    };
    let p4 = opt_blank(input, p4r);
    proof {
        assert(spec_function(input@, pos as int) == spec_fun_args_step(
            input@,
            ow,
            rty@,
            id@,
            p4 as int,
        ));
        reveal(spec_fun_args_step);
    }
    let (args, p5) = match paren_fields(input, p4) {
        Ok(x) => x,
        Err(e) => { return Err(e); },
    };
    let p6 = match ch(input, p5, 41) {
        Ok((_, e)) => e,
        Err(e) => { return Err(e); },
    };
    proof {
        assert(spec_function(input@, pos as int) == spec_function_tail(
            input@,
            p6 as int,
            ow,
            id@,
            ty_view(rty),
            fields_view(args@),
        ));
    }
    function_tail(input, p6, ow, id, rty, args)
}

/// Parses what stands after a method's closing parenthesis.
fn function_tail(
    input: &[u8],
    p6: usize,
    ow: bool,
    id: String,
    rty: Ty,
    args: Vec<StructField>,
) -> (r: Result<(ServiceMethod, usize), ParseError>)
    requires
        p6 <= input@.len(),
    ensures
        match spec_function_tail(input@, p6 as int, ow, id@, ty_view(rty), fields_view(args@)) {
            PRes::POk { v, end } => r matches Ok((m, e)) && m@ == v && e == end && p6 <= e
                <= input@.len(),
            PRes::PFail { err } => r == Err::<(ServiceMethod, usize), ParseError>(err),
        },
    decreases input@.len() - p6, 7int,
{
    proof {
        reveal(spec_function_tail);
    }
    let (th, p7) = {
        let q = opt_blank(input, p6);
        match throws(input, q) {
            Ok((fs, e)) => (Some(fs), e),
            Err(_) => (None, p6),
        }
    };
    let end = {
        let q = opt_blank(input, p7);
        match list_separator(input, q) {
            Ok((_, e)) => e,
            Err(_) => p7,
        }
    };
    Ok((ServiceMethod { oneway: ow, ident: id, ty: rty, args, throws: th }, end))
}

// ---------------------------------------------------------------------------
// Definitions and the document.
// ---------------------------------------------------------------------------

/// The variants inside an enum body, each with an optional `= index`,
/// separators tolerated.
pub open spec fn spec_variant_items(input: Seq<u8>, pos: int) -> PRes<Seq<VariantV>>
    decreases input.len() - pos,
{
    if pos >= input.len() {
        PRes::POk { v: Seq::empty(), end: pos }
    } else {
        match spec_identifier(input, pos) {
            PRes::PFail { err: ParseError::Expected } => PRes::POk { v: Seq::empty(), end: pos },
            PRes::PFail { err } => PRes::PFail { err },
            PRes::POk { v: id, end: e1 } => {
                if !(pos < e1 <= input.len()) {
                    PRes::POk { v: Seq::empty(), end: pos }
                } else {
                    let idx_step = {
                        let q = spec_opt_blank(input, e1);
                        match spec_ch(input, q, 61) {
                            PRes::POk { v: _, end: e2 } => {
                                let q2 = spec_opt_blank(input, e2);
                                match spec_int_constant(input, q2) {
                                    PRes::POk { v, end: e3 } => {
                                        if e1 <= e3 <= input.len() {
                                            Some((v, e3))
                                        } else {
                                            None
                                        }
                                    },
                                    PRes::PFail { err } => None,
                                }
                            },
                            PRes::PFail { err } => None,
                        }
                    };
                    let idx = match idx_step {
                        Option::Some((v, _)) => Some(v),
                        Option::None => None,
                    };
                    let p = match idx_step {
                        Option::Some((_, e)) => e,
                        Option::None => e1,
                    };
                    let p2 = spec_opt_blank(input, p);
                    let p3 = match spec_list_separator(input, p2) {
                        PRes::POk { v: _, end: e } => e,
                        PRes::PFail { err } => p2,
                    };
                    let p4 = spec_opt_blank(input, p3);
                    match spec_variant_items(input, p4) {
                        PRes::POk { v: rest, end } => PRes::POk {
                            v: seq![VariantV { ident: id, seq: idx }] + rest,
                            end,
                        },
                        PRes::PFail { err } => PRes::PFail { err },
                    }
                }
            },
        }
    }
}

fn variant_items(input: &[u8], pos: usize) -> (r: Result<(Vec<Variant>, usize), ParseError>)
    requires
        pos <= input@.len(),
    ensures
        match spec_variant_items(input@, pos as int) {
            PRes::POk { v, end } => r matches Ok((vs, e)) && variants_view(vs@) == v && e == end
                && pos <= e <= input@.len(),
            PRes::PFail { err } => r == Err::<(Vec<Variant>, usize), ParseError>(err),
        },
    decreases input@.len() - pos,
{
    let mut acc: Vec<Variant> = Vec::new();
    let mut i = pos;
    proof {
        lemma_variants_view(Seq::empty());
        assert(acc@ =~= Seq::<Variant>::empty());
    }
    loop
        invariant
            pos <= i <= input@.len(),
            spec_variant_items(input@, pos as int) == (match spec_variant_items(
                input@,
                i as int,
            ) {
                PRes::POk { v, end } => PRes::POk { v: variants_view(acc@) + v, end },
                PRes::PFail { err } => PRes::PFail { err },
            }),
        decreases input@.len() - i,
    {
        if i >= input.len() {
            proof {
                assert(variants_view(acc@) + Seq::<VariantV>::empty() =~= variants_view(acc@));
            }
            return Ok((acc, i));
        }
        let (id, e1) = match identifier(input, i) {
            Ok(x) => x,
            Err(ParseError::Expected) => {
                proof {
                    assert(variants_view(acc@) + Seq::<VariantV>::empty() =~= variants_view(
                        acc@,
                    ));
                }
                return Ok((acc, i));
            },
            Err(e) => { return Err(e); },
        };
        let (idx, p) = {
            let q = opt_blank(input, e1);
            match ch(input, q, 61) {
                Ok((_, e2)) => {
                    let q2 = opt_blank(input, e2);
                    match int_constant(input, q2) {
                        Ok((v, e3)) => (Some(v), e3),
                        Err(_) => (None, e1),
                    }
                },
                Err(_) => (None, e1),
            }
        };
        let p2 = opt_blank(input, p);
        let p3 = match list_separator(input, p2) {
            Ok((_, e)) => e,
            Err(_) => p2,
        };
        let p4 = opt_blank(input, p3);
        let x = Variant { ident: id, seq: idx };
        proof {
            lemma_variants_view_push(acc@, x);
            assert forall|rest: Seq<VariantV>|
                true implies variants_view(acc@) + (seq![x@] + rest) =~= variants_view(
                acc@.push(x),
            ) + rest by {
                lemma_variants_view_push(acc@, x);
            }
        }
        acc.push(x);
        i = p4;
    }
}

/// An enum definition: keyword, name, and braced variants.
pub open spec fn spec_enum_(input: Seq<u8>, pos: int) -> PRes<EnumV> {
    if !spec_tag(input, pos, kw_enum()) {
        if pos >= input.len() {
            PRes::PFail { err: ParseError::UnexpectedEof }
        } else {
            PRes::PFail { err: ParseError::Expected }
        }
    } else {
        match spec_blank(input, pos + 4) {
            PRes::PFail { err } => PRes::PFail { err },
            PRes::POk { v: _, end: p1r } => {
                let p1 = if pos <= p1r <= input.len() {
                    p1r
                } else {
                    pos
                };
                match spec_identifier(input, p1) {
                    PRes::PFail { err } => PRes::PFail { err },
                    PRes::POk { v: id, end: p2r } => {
                        let p2 = spec_opt_blank(input, p2r);
                        match spec_ch(input, p2, 123) {
                            PRes::PFail { err } => PRes::PFail { err },
                            PRes::POk { v: _, end: p3r } => {
                                let p3 = spec_opt_blank(input, p3r);
                                if !(0 <= p3 <= input.len()) {
                                    PRes::PFail { err: ParseError::Expected }
                                } else {
                                    match spec_variant_items(input, p3) {
                                        PRes::PFail { err } => PRes::PFail { err },
                                        PRes::POk { v: vars, end: p4 } => match spec_ch(
                                            input,
                                            p4,
                                            125,
                                        ) {
                                            PRes::PFail { err } => PRes::PFail { err },
                                            PRes::POk { v: _, end } => PRes::POk {
                                                v: EnumV { ident: id, variants: vars },
                                                end,
                                            },
                                        },
                                    }
                                }
                            },
                        }
                    },
                }
            },
        }
    }
}

#[verifier::rlimit(60)]
#[verifier::spinoff_prover]
pub fn enum_(input: &[u8], pos: usize) -> (r: Result<(Enum, usize), ParseError>)
    requires
        pos <= input@.len(),
    ensures
        match spec_enum_(input@, pos as int) {
            PRes::POk { v, end } => r matches Ok((x, e)) && x@ == v && e == end && pos < e
                <= input@.len(),
            PRes::PFail { err } => r == Err::<(Enum, usize), ParseError>(err),
        },
{
    let n = input.len();
    if !tag_enum(input, pos) {
        if pos >= n {
            return Err(ParseError::UnexpectedEof);
        }
        return Err(ParseError::Expected);
    }
    let p1 = match blank(input, pos + 4) {
        Ok((_, e)) => e,
        Err(e) => { return Err(e); },
    };
    let (id, p2r) = match identifier(input, p1) {
        Ok(x) => x,
        Err(e) => { return Err(e); },
    };
    let p2 = opt_blank(input, p2r);
    let p3r = match ch(input, p2, 123) {
        Ok((_, e)) => e,
        Err(e) => { return Err(e); },
    };
    let p3 = opt_blank(input, p3r);
    let (vars, p4) = match variant_items(input, p3) {
        Ok(x) => x,
        Err(e) => { return Err(e); },
    };
    match ch(input, p4, 125) {
        Ok((_, end)) => Ok((Enum { ident: id, variants: vars }, end)),
        Err(e) => Err(e),
    }
}

/// The fields inside a braced body, blank tolerated before each.
pub open spec fn spec_struct_fields(input: Seq<u8>, pos: int) -> PRes<Seq<StructFieldV>>
    decreases input.len() - pos, 5int,
{
    if pos >= input.len() {
        PRes::POk { v: Seq::empty(), end: pos }
    } else {
        let p = spec_opt_blank(input, pos);
        match spec_field(input, p) {
            PRes::PFail { err: ParseError::Expected } => PRes::POk { v: Seq::empty(), end: pos },
            PRes::PFail { err } => PRes::PFail { err },
            PRes::POk { v, end } => {
                if !(pos < end <= input.len()) {
                    PRes::POk { v: Seq::empty(), end: pos }
                } else {
                    match spec_struct_fields(input, end) {
                        PRes::POk { v: rest, end: e } => PRes::POk { v: seq![v] + rest, end: e },
                        PRes::PFail { err } => PRes::PFail { err },
                    }
                }
            },
        }
    }
}

fn struct_fields(input: &[u8], pos: usize) -> (r: Result<(Vec<StructField>, usize), ParseError>)
    requires
        pos <= input@.len(),
    ensures
        match spec_struct_fields(input@, pos as int) {
            PRes::POk { v, end } => r matches Ok((fs, e)) && fields_view(fs@) == v && e == end
                && pos <= e <= input@.len(),
            PRes::PFail { err } => r == Err::<(Vec<StructField>, usize), ParseError>(err),
        },
    decreases input@.len() - pos, 5int,
{
    let mut acc: Vec<StructField> = Vec::new();
    let mut i = pos;
    proof {
        lemma_fields_view(Seq::empty());
        assert(acc@ =~= Seq::<StructField>::empty());
    }
    loop
        invariant
            pos <= i <= input@.len(),
            spec_struct_fields(input@, pos as int) == (match spec_struct_fields(
                input@,
                i as int,
            ) {
                PRes::POk { v, end } => PRes::POk { v: fields_view(acc@) + v, end },
                PRes::PFail { err } => PRes::PFail { err },
            }),
        decreases input@.len() - i,
    {
        if i >= input.len() {
            proof {
                assert(fields_view(acc@) + Seq::<StructFieldV>::empty() =~= fields_view(acc@));
            }
            return Ok((acc, i));
        }
        let p = opt_blank(input, i);
        let (f, e1) = match field(input, p) {
            Ok(x) => x,
            Err(ParseError::Expected) => {
                proof {
                    assert(fields_view(acc@) + Seq::<StructFieldV>::empty() =~= fields_view(
                        acc@,
                    ));
                }
                return Ok((acc, i));
            },
            Err(e) => { return Err(e); },
        };
        proof {
            lemma_fields_view_push(acc@, f);
            assert forall|rest: Seq<StructFieldV>|
                true implies fields_view(acc@) + (seq![f@] + rest) =~= fields_view(acc@.push(f))
                + rest by {
                lemma_fields_view_push(acc@, f);
            }
        }
        acc.push(f);
        i = e1;
    }
}

/// A struct definition: keyword, name, and braced fields.
pub open spec fn spec_struct_(input: Seq<u8>, pos: int) -> PRes<StructV> {
    if !spec_tag(input, pos, kw_struct()) {
        if pos >= input.len() {
            PRes::PFail { err: ParseError::UnexpectedEof }
        } else {
            PRes::PFail { err: ParseError::Expected }
        }
    } else {
        match spec_blank(input, pos + 6) {
            PRes::PFail { err } => PRes::PFail { err },
            PRes::POk { v: _, end: p1r } => {
                let p1 = if pos <= p1r <= input.len() {
                    p1r
                } else {
                    pos
                };
                match spec_identifier(input, p1) {
                    PRes::PFail { err } => PRes::PFail { err },
                    PRes::POk { v: id, end: p2r } => {
                        let p2 = spec_opt_blank(input, p2r);
                        match spec_ch(input, p2, 123) {
                            PRes::PFail { err } => PRes::PFail { err },
                            PRes::POk { v: _, end: p3 } => {
                                if !(0 <= p3 <= input.len()) {
                                    PRes::PFail { err: ParseError::Expected }
                                } else {
                                    match spec_struct_fields(input, p3) {
                                        PRes::PFail { err } => PRes::PFail { err },
                                        PRes::POk { v: fs, end: p4r } => {
                                            let p4 = spec_opt_blank(input, p4r);
                                            match spec_ch(input, p4, 125) {
                                                PRes::PFail { err } => PRes::PFail { err },
                                                PRes::POk { v: _, end } => PRes::POk {
                                                    v: StructV { ident: id, fields: fs },
                                                    end,
                                                },
                                            }
                                        },
                                    }
                                }
                            },
                        }
                    },
                }
            },
        }
    }
}

#[verifier::rlimit(60)]
#[verifier::spinoff_prover]
pub fn struct_(input: &[u8], pos: usize) -> (r: Result<(Struct, usize), ParseError>)
    requires
        pos <= input@.len(),
    ensures
        match spec_struct_(input@, pos as int) {
            PRes::POk { v, end } => r matches Ok((x, e)) && x@ == v && e == end && pos < e
                <= input@.len(),
            PRes::PFail { err } => r == Err::<(Struct, usize), ParseError>(err),
        },
{
    let n = input.len();
    if !tag_struct(input, pos) {
        if pos >= n {
            return Err(ParseError::UnexpectedEof);
        }
        return Err(ParseError::Expected);
    }
    let p1 = match blank(input, pos + 6) {
        Ok((_, e)) => e,
        Err(e) => { return Err(e); },
    };
    let (id, p2r) = match identifier(input, p1) {
        Ok(x) => x,
        Err(e) => { return Err(e); },
    };
    let p2 = opt_blank(input, p2r);
    let p3 = match ch(input, p2, 123) {
        Ok((_, e)) => e,
        Err(e) => { return Err(e); },
    };
    let (fs, p4r) = match struct_fields(input, p3) {
        Ok(x) => x,
        Err(e) => { return Err(e); },
    };
    let p4 = opt_blank(input, p4r);
    match ch(input, p4, 125) {
        Ok((_, end)) => Ok((Struct { ident: id, fields: fs }, end)),
        Err(e) => Err(e),
    }
}

/// A union definition: same shape as a struct.
pub open spec fn spec_union(input: Seq<u8>, pos: int) -> PRes<UnionV> {
    if !spec_tag(input, pos, kw_union()) {
        if pos >= input.len() {
            PRes::PFail { err: ParseError::UnexpectedEof }
        } else {
            PRes::PFail { err: ParseError::Expected }
        }
    } else {
        match spec_blank(input, pos + 5) {
            PRes::PFail { err } => PRes::PFail { err },
            PRes::POk { v: _, end: p1r } => {
                let p1 = if pos <= p1r <= input.len() {
                    p1r
                } else {
                    pos
                };
                match spec_identifier(input, p1) {
                    PRes::PFail { err } => PRes::PFail { err },
                    PRes::POk { v: id, end: p2r } => {
                        let p2 = spec_opt_blank(input, p2r);
                        match spec_ch(input, p2, 123) {
                            PRes::PFail { err } => PRes::PFail { err },
                            PRes::POk { v: _, end: p3 } => {
                                if !(0 <= p3 <= input.len()) {
                                    PRes::PFail { err: ParseError::Expected }
                                } else {
                                    match spec_struct_fields(input, p3) {
                                        PRes::PFail { err } => PRes::PFail { err },
                                        PRes::POk { v: fs, end: p4r } => {
                                            let p4 = spec_opt_blank(input, p4r);
                                            match spec_ch(input, p4, 125) {
                                                PRes::PFail { err } => PRes::PFail { err },
                                                PRes::POk { v: _, end } => PRes::POk {
                                                    v: UnionV { ident: id, fields: fs },
                                                    end,
                                                },
                                            }
                                        },
                                    }
                                }
                            },
                        }
                    },
                }
            },
        }
    }
}

#[verifier::rlimit(60)]
#[verifier::spinoff_prover]
pub fn union(input: &[u8], pos: usize) -> (r: Result<(Union, usize), ParseError>)
    requires
        pos <= input@.len(),
    ensures
        match spec_union(input@, pos as int) {
            PRes::POk { v, end } => r matches Ok((x, e)) && x@ == v && e == end && pos < e
                <= input@.len(),
            PRes::PFail { err } => r == Err::<(Union, usize), ParseError>(err),
        },
{
    let n = input.len();
    if !tag_union(input, pos) {
        if pos >= n {
            return Err(ParseError::UnexpectedEof);
        }
        return Err(ParseError::Expected);
    }
    let p1 = match blank(input, pos + 5) {
        Ok((_, e)) => e,
        Err(e) => { return Err(e); },
    };
    let (id, p2r) = match identifier(input, p1) {
        Ok(x) => x,
        Err(e) => { return Err(e); },
    };
    let p2 = opt_blank(input, p2r);
    let p3 = match ch(input, p2, 123) {
        Ok((_, e)) => e,
        Err(e) => { return Err(e); },
    };
    let (fs, p4r) = match struct_fields(input, p3) {
        Ok(x) => x,
        Err(e) => { return Err(e); },
    };
    let p4 = opt_blank(input, p4r);
    match ch(input, p4, 125) {
        Ok((_, end)) => Ok((Union { ident: id, fields: fs }, end)),
        Err(e) => Err(e),
    }
}

/// An exception definition: same shape as a struct.
pub open spec fn spec_exception(input: Seq<u8>, pos: int) -> PRes<ExceptionV> {
    if !spec_tag(input, pos, kw_exception()) {
        if pos >= input.len() {
            PRes::PFail { err: ParseError::UnexpectedEof }
        } else {
            PRes::PFail { err: ParseError::Expected }
        }
    } else {
        match spec_blank(input, pos + 9) {
            PRes::PFail { err } => PRes::PFail { err },
            PRes::POk { v: _, end: p1r } => {
                let p1 = if pos <= p1r <= input.len() {
                    p1r
                } else {
                    pos
                };
                match spec_identifier(input, p1) {
                    PRes::PFail { err } => PRes::PFail { err },
                    PRes::POk { v: id, end: p2r } => {
                        let p2 = spec_opt_blank(input, p2r);
                        match spec_ch(input, p2, 123) {
                            PRes::PFail { err } => PRes::PFail { err },
                            PRes::POk { v: _, end: p3 } => {
                                if !(0 <= p3 <= input.len()) {
                                    PRes::PFail { err: ParseError::Expected }
                                } else {
                                    match spec_struct_fields(input, p3) {
                                        PRes::PFail { err } => PRes::PFail { err },
                                        PRes::POk { v: fs, end: p4r } => {
                                            let p4 = spec_opt_blank(input, p4r);
                                            match spec_ch(input, p4, 125) {
                                                PRes::PFail { err } => PRes::PFail { err },
                                                PRes::POk { v: _, end } => PRes::POk {
                                                    v: ExceptionV { ident: id, fields: fs },
                                                    end,
                                                },
                                            }
                                        },
                                    }
                                }
                            },
                        }
                    },
                }
            },
        }
    }
}

#[verifier::rlimit(60)]
#[verifier::spinoff_prover]
pub fn exception(input: &[u8], pos: usize) -> (r: Result<(Exception, usize), ParseError>)
    requires
        pos <= input@.len(),
    ensures
        match spec_exception(input@, pos as int) {
            PRes::POk { v, end } => r matches Ok((x, e)) && x@ == v && e == end && pos < e
                <= input@.len(),
            PRes::PFail { err } => r == Err::<(Exception, usize), ParseError>(err),
        },
{
    let n = input.len();
    if !tag_exception(input, pos) {
        if pos >= n {
            return Err(ParseError::UnexpectedEof);
        }
        return Err(ParseError::Expected);
    }
    let p1 = match blank(input, pos + 9) {
        Ok((_, e)) => e,
        Err(e) => { return Err(e); },
    };
    let (id, p2r) = match identifier(input, p1) {
        Ok(x) => x,
        Err(e) => { return Err(e); },
    };
    let p2 = opt_blank(input, p2r);
    let p3 = match ch(input, p2, 123) {
        Ok((_, e)) => e,
        Err(e) => { return Err(e); },
    };
    let (fs, p4r) = match struct_fields(input, p3) {
        Ok(x) => x,
        Err(e) => { return Err(e); },
    };
    let p4 = opt_blank(input, p4r);
    match ch(input, p4, 125) {
        Ok((_, end)) => Ok((Exception { ident: id, fields: fs }, end)),
        Err(e) => Err(e),
    }
}

/// The methods inside a service body, blank tolerated after each.
pub open spec fn spec_method_items(input: Seq<u8>, pos: int) -> PRes<Seq<ServiceMethodV>>
    decreases input.len() - pos, 11int,
{
    if pos >= input.len() {
        PRes::POk { v: Seq::empty(), end: pos }
    } else {
        match spec_function(input, pos) {
            PRes::PFail { err: ParseError::Expected } => PRes::POk { v: Seq::empty(), end: pos },
            PRes::PFail { err } => PRes::PFail { err },
            PRes::POk { v, end } => {
                if !(pos < end <= input.len()) {
                    PRes::POk { v: Seq::empty(), end: pos }
                } else {
                    let p1 = spec_opt_blank(input, end);
                    match spec_method_items(input, p1) {
                        PRes::POk { v: rest, end: e } => PRes::POk { v: seq![v] + rest, end: e },
                        PRes::PFail { err } => PRes::PFail { err },
                    }
                }
            },
        }
    }
}

fn method_items(input: &[u8], pos: usize) -> (r: Result<(Vec<ServiceMethod>, usize), ParseError>)
    requires
        pos <= input@.len(),
    ensures
        match spec_method_items(input@, pos as int) {
            PRes::POk { v, end } => r matches Ok((ms, e)) && methods_view(ms@) == v && e == end
                && pos <= e <= input@.len(),
            PRes::PFail { err } => r == Err::<(Vec<ServiceMethod>, usize), ParseError>(err),
        },
    decreases input@.len() - pos, 11int,
{
    let mut acc: Vec<ServiceMethod> = Vec::new();
    let mut i = pos;
    proof {
        lemma_methods_view(Seq::empty());
        assert(acc@ =~= Seq::<ServiceMethod>::empty());
    }
    loop
        invariant
            pos <= i <= input@.len(),
            spec_method_items(input@, pos as int) == (match spec_method_items(
                input@,
                i as int,
            ) {
                PRes::POk { v, end } => PRes::POk { v: methods_view(acc@) + v, end },
                PRes::PFail { err } => PRes::PFail { err },
            }),
        decreases input@.len() - i,
    {
        if i >= input.len() {
            proof {
                assert(methods_view(acc@) + Seq::<ServiceMethodV>::empty() =~= methods_view(
                    acc@,
                ));
            }
            return Ok((acc, i));
        }
        let (m, e1) = match function(input, i) {
            Ok(x) => x,
            Err(ParseError::Expected) => {
                proof {
                    assert(methods_view(acc@) + Seq::<ServiceMethodV>::empty() =~= methods_view(
                        acc@,
                    ));
                }
                return Ok((acc, i));
            },
            Err(e) => { return Err(e); },
        };
        let p1 = opt_blank(input, e1);
        proof {
            lemma_methods_view_push(acc@, m);
            assert forall|rest: Seq<ServiceMethodV>|
                true implies methods_view(acc@) + (seq![m@] + rest) =~= methods_view(
                acc@.push(m),
            ) + rest by {
                lemma_methods_view_push(acc@, m);
            }
        }
        acc.push(m);
        i = p1;
    }
}

/// A service definition: keyword, name, an optional `extends` clause, and
/// the braced methods.
pub open spec fn spec_service(input: Seq<u8>, pos: int) -> PRes<ServiceV> {
    if !spec_tag(input, pos, kw_service()) {
        if pos >= input.len() {
            PRes::PFail { err: ParseError::UnexpectedEof }
        } else {
            PRes::PFail { err: ParseError::Expected }
        }
    } else {
        match spec_blank(input, pos + 7) {
            PRes::PFail { err } => PRes::PFail { err },
            PRes::POk { v: _, end: p1r } => {
                let p1 = if pos <= p1r <= input.len() {
                    p1r
                } else {
                    pos
                };
                match spec_identifier(input, p1) {
                    PRes::PFail { err } => PRes::PFail { err },
                    PRes::POk { v: id, end: p2r } => {
                        let p2 = spec_opt_blank(input, p2r);
                        let ext_step = {
                            if spec_tag(input, p2, kw_extends()) {
                                match spec_blank(input, p2 + 7) {
                                    PRes::POk { v: _, end: b1 } => {
                                        if p2 <= b1 <= input.len() {
                                            match spec_identifier(input, b1) {
                                                PRes::POk { v: x, end: e } => Some((x, e)),
                                                PRes::PFail { err } => None,
                                            }
                                        } else {
                                            None
                                        }
                                    },
                                    PRes::PFail { err } => None,
                                }
                            } else {
                                None
                            }
                        };
                        let ext = match ext_step {
                            Option::Some((x, _)) => Some(x),
                            Option::None => None,
                        };
                        let p3 = match ext_step {
                            Option::Some((_, e)) => {
                                if p2 <= e <= input.len() {
                                    e
                                } else {
                                    p2
                                }
                            },
                            Option::None => p2,
                        };
                        let p4 = spec_opt_blank(input, p3);
                        match spec_ch(input, p4, 123) {
                            PRes::PFail { err } => PRes::PFail { err },
                            PRes::POk { v: _, end: p5r } => {
                                let p5 = spec_opt_blank(input, p5r);
                                if !(0 <= p5 <= input.len()) {
                                    PRes::PFail { err: ParseError::Expected }
                                } else {
                                    match spec_method_items(input, p5) {
                                        PRes::PFail { err } => PRes::PFail { err },
                                        PRes::POk { v: ms, end: p6 } => match spec_ch(
                                            input,
                                            p6,
                                            125,
                                        ) {
                                            PRes::PFail { err } => PRes::PFail { err },
                                            PRes::POk { v: _, end } => PRes::POk {
                                                v: ServiceV {
                                                    extends: ext,
                                                    ident: id,
                                                    methods: ms,
                                                },
                                                end,
                                            },
                                        },
                                    }
                                }
                            },
                        }
                    },
                }
            },
        }
    }
}

#[verifier::rlimit(60)]
#[verifier::spinoff_prover]
pub fn service(input: &[u8], pos: usize) -> (r: Result<(Service, usize), ParseError>)
    requires
        pos <= input@.len(),
    ensures
        match spec_service(input@, pos as int) {
            PRes::POk { v, end } => r matches Ok((x, e)) && x@ == v && e == end && pos < e
                <= input@.len(),
            PRes::PFail { err } => r == Err::<(Service, usize), ParseError>(err),
        },
{
    let n = input.len();
    if !tag_service(input, pos) {
        if pos >= n {
            return Err(ParseError::UnexpectedEof);
        }
        return Err(ParseError::Expected);
    }
    let p1 = match blank(input, pos + 7) {
        Ok((_, e)) => e,
        Err(e) => { return Err(e); },
    };
    let (id, p2r) = match identifier(input, p1) {
        Ok(x) => x,
        Err(e) => { return Err(e); },
    };
    let p2 = opt_blank(input, p2r);
    let (ext, p3) = if tag_extends(input, p2) {
        match blank(input, p2 + 7) {
            Ok((_, b1)) => match identifier(input, b1) {
                Ok((x, e)) => (Some(x), e),
                Err(_) => (None, p2),
            },
            Err(_) => (None, p2),
        }
    } else {
        (None, p2)
    };
    let p4 = opt_blank(input, p3);
    let p5r = match ch(input, p4, 123) {
        Ok((_, e)) => e,
        Err(e) => { return Err(e); },
    };
    let p5 = opt_blank(input, p5r);
    let (ms, p6) = match method_items(input, p5) {
        Ok(x) => x,
        Err(e) => { return Err(e); },
    };
    match ch(input, p6, 125) {
        Ok((_, end)) => Ok((Service { extends: ext, ident: id, methods: ms }, end)),
        Err(e) => Err(e),
    }
}

/// A typedef definition.
pub open spec fn spec_typedef(input: Seq<u8>, pos: int) -> PRes<TypedefV> {
    if !spec_tag(input, pos, kw_typedef()) {
        if pos >= input.len() {
            PRes::PFail { err: ParseError::UnexpectedEof }
        } else {
            PRes::PFail { err: ParseError::Expected }
        }
    } else {
        match spec_blank(input, pos + 7) {
            PRes::PFail { err } => PRes::PFail { err },
            PRes::POk { v: _, end: p1r } => {
                let p1 = if pos <= p1r <= input.len() {
                    p1r
                } else {
                    pos
                };
                match spec_definition_type(input, p1) {
                    PRes::PFail { err } => PRes::PFail { err },
                    PRes::POk { v: ty, end: p2 } => {
                        if !(0 <= p2 <= input.len()) {
                            PRes::PFail { err: ParseError::Expected }
                        } else {
                            match spec_blank(input, p2) {
                                PRes::PFail { err } => PRes::PFail { err },
                                PRes::POk { v: _, end: p3r } => {
                                    let p3 = if p2 <= p3r <= input.len() {
                                        p3r
                                    } else {
                                        p2
                                    };
                                    match spec_identifier(input, p3) {
                                        PRes::PFail { err } => PRes::PFail { err },
                                        PRes::POk { v: id, end } => PRes::POk {
                                            v: TypedefV { ty, ident: id },
                                            end,
                                        },
                                    }
                                },
                            }
                        }
                    },
                }
            },
        }
    }
}

#[verifier::rlimit(60)]
#[verifier::spinoff_prover]
pub fn typedef(input: &[u8], pos: usize) -> (r: Result<(Typedef, usize), ParseError>)
    requires
        pos <= input@.len(),
    ensures
        match spec_typedef(input@, pos as int) {
            PRes::POk { v, end } => r matches Ok((x, e)) && x@ == v && e == end && pos < e
                <= input@.len(),
            PRes::PFail { err } => r == Err::<(Typedef, usize), ParseError>(err),
        },
{
    let n = input.len();
    if !tag_typedef(input, pos) {
        if pos >= n {
            return Err(ParseError::UnexpectedEof);
        }
        return Err(ParseError::Expected);
    }
    let p1 = match blank(input, pos + 7) {
        Ok((_, e)) => e,
        Err(e) => { return Err(e); },
    };
    let (ty, p2) = match definition_type(input, p1) {
        Ok(x) => x,
        Err(e) => { return Err(e); },
    };
    let p3 = match blank(input, p2) {
        Ok((_, e)) => e,
        Err(e) => { return Err(e); },
    };
    match identifier(input, p3) {
        Ok((id, end)) => Ok((Typedef { ty, ident: id }, end)),
        Err(e) => Err(e),
    }
}

/// A constant definition: keyword, type, name, `=`, the value, and an
/// optional trailing separator.
#[verifier::opaque]
pub open spec fn spec_const_(input: Seq<u8>, pos: int) -> PRes<ConstV> {
    if !spec_tag(input, pos, kw_const()) {
        if pos >= input.len() {
            PRes::PFail { err: ParseError::UnexpectedEof }
        } else {
            PRes::PFail { err: ParseError::Expected }
        }
    } else {
        match spec_blank(input, pos + 5) {
            PRes::PFail { err } => PRes::PFail { err },
            PRes::POk { v: _, end: p1r } => {
                let p1 = if pos <= p1r <= input.len() {
                    p1r
                } else {
                    pos
                };
                match spec_field_type(input, p1) {
                    PRes::PFail { err } => PRes::PFail { err },
                    PRes::POk { v: ty, end: p2 } => {
                        if !(0 <= p2 <= input.len()) {
                            PRes::PFail { err: ParseError::Expected }
                        } else {
                            match spec_blank(input, p2) {
                                PRes::PFail { err } => PRes::PFail { err },
                                PRes::POk { v: _, end: p3r } => {
                                    let p3 = if p2 <= p3r <= input.len() {
                                        p3r
                                    } else {
                                        p2
                                    };
                                    match spec_identifier(input, p3) {
                                        PRes::PFail { err } => PRes::PFail { err },
                                        PRes::POk { v: id, end: p4r } => {
                                            let p4 = spec_opt_blank(input, p4r);
                                            match spec_ch(input, p4, 61) {
                                                PRes::PFail { err } => PRes::PFail { err },
                                                PRes::POk { v: _, end: p5r } => {
                                                    let p5 = spec_opt_blank(input, p5r);
                                                    if !(0 <= p5 <= input.len()) {
                                                        PRes::PFail { err: ParseError::Expected }
                                                    } else {
                                                        match spec_const_value(input, p5) {
                                                            PRes::PFail { err } => PRes::PFail {
                                                                err,
                                                            },
                                                            PRes::POk { v: cv, end: p6r } => {
                                                                let p6 = spec_opt_blank(
                                                                    input,
                                                                    p6r,
                                                                );
                                                                let end = match spec_list_separator(
                                                                    input,
                                                                    p6,
                                                                ) {
                                                                    PRes::POk {
                                                                        v: _,
                                                                        end: e,
                                                                    } => e,
                                                                    PRes::PFail { err } => p6,
                                                                };
                                                                PRes::POk {
                                                                    v: ConstV {
                                                                        ident: id,
                                                                        ty,
                                                                        value: cv,
                                                                    },
                                                                    end,
                                                                }
                                                            },
                                                        }
                                                    }
                                                },
                                            }
                                        },
                                    }
                                },
                            }
                        }
                    },
                }
            },
        }
    }
}

#[verifier::rlimit(60)]
#[verifier::spinoff_prover]
pub fn const_(input: &[u8], pos: usize) -> (r: Result<(Const, usize), ParseError>)
    requires
        pos <= input@.len(),
    ensures
        match spec_const_(input@, pos as int) {
            PRes::POk { v, end } => r matches Ok((x, e)) && x@ == v && e == end && pos < e
                <= input@.len(),
            PRes::PFail { err } => r == Err::<(Const, usize), ParseError>(err),
        },
{
    proof {
        reveal(spec_const_);
    }
    let n = input.len();
    if !tag_const(input, pos) {
        if pos >= n {
            return Err(ParseError::UnexpectedEof);
        }
        return Err(ParseError::Expected);
    }
    let p1 = match blank(input, pos + 5) {
        Ok((_, e)) => e,
        Err(e) => { return Err(e); },
    };
    let (ty, p2) = match field_type(input, p1) {
        Ok(x) => x,
        Err(e) => { return Err(e); },
    };
    let p3 = match blank(input, p2) {
        Ok((_, e)) => e,
        Err(e) => { return Err(e); },
    };
    let (id, p4r) = match identifier(input, p3) {
        Ok(x) => x,
        Err(e) => { return Err(e); },
    };
    let p4 = opt_blank(input, p4r);
    let p5r = match ch(input, p4, 61) {
        Ok((_, e)) => e,
        Err(e) => { return Err(e); },
    };
    let p5 = opt_blank(input, p5r);
    let (cv, p6r) = match const_value(input, p5) {
        Ok(x) => x,
        Err(e) => { return Err(e); },
    };
    let p6 = opt_blank(input, p6r);
    let end = match list_separator(input, p6) {
        Ok((_, e)) => e,
        Err(_) => p6,
    };
    Ok((Const { ident: id, ty, value: cv }, end))
}

/// An include header: the keyword, then a quoted path.
pub open spec fn spec_include(input: Seq<u8>, pos: int) -> PRes<IncludeV> {
    if !spec_tag(input, pos, kw_include()) {
        if pos >= input.len() {
            PRes::PFail { err: ParseError::UnexpectedEof }
        } else {
            PRes::PFail { err: ParseError::Expected }
        }
    } else {
        match spec_blank(input, pos + 7) {
            PRes::PFail { err } => PRes::PFail { err },
            PRes::POk { v: _, end: p1r } => {
                let p1 = if pos <= p1r <= input.len() {
                    p1r
                } else {
                    pos
                };
                match spec_literal(input, p1) {
                    PRes::PFail { err } => PRes::PFail { err },
                    PRes::POk { v: path, end } => PRes::POk { v: IncludeV { path }, end },
                }
            },
        }
    }
}

#[verifier::rlimit(60)]
#[verifier::spinoff_prover]
pub fn include_(input: &[u8], pos: usize) -> (r: Result<(Include, usize), ParseError>)
    requires
        pos <= input@.len(),
    ensures
        match spec_include(input@, pos as int) {
            PRes::POk { v, end } => r matches Ok((x, e)) && x@ == v && e == end && pos < e
                <= input@.len(),
            PRes::PFail { err } => r == Err::<(Include, usize), ParseError>(err),
        },
{
    let n = input.len();
    if !tag_include(input, pos) {
        if pos >= n {
            return Err(ParseError::UnexpectedEof);
        }
        return Err(ParseError::Expected);
    }
    let p1 = match blank(input, pos + 7) {
        Ok((_, e)) => e,
        Err(e) => { return Err(e); },
    };
    match literal(input, p1) {
        Ok((path, end)) => Ok((Include { path }, end)),
        Err(e) => Err(e),
    }
}

/// A namespace header: the keyword, the language tag, and the module name.
pub open spec fn spec_namespace(input: Seq<u8>, pos: int) -> PRes<NamespaceV> {
    if !spec_tag(input, pos, kw_namespace()) {
        if pos >= input.len() {
            PRes::PFail { err: ParseError::UnexpectedEof }
        } else {
            PRes::PFail { err: ParseError::Expected }
        }
    } else {
        match spec_blank(input, pos + 9) {
            PRes::PFail { err } => PRes::PFail { err },
            PRes::POk { v: _, end: p1r } => {
                let p1 = if pos <= p1r <= input.len() {
                    p1r
                } else {
                    pos
                };
                match spec_identifier(input, p1) {
                    PRes::PFail { err } => PRes::PFail { err },
                    PRes::POk { v: lang, end: p2 } => {
                        if !(0 <= p2 <= input.len()) {
                            PRes::PFail { err: ParseError::Expected }
                        } else {
                            match spec_blank(input, p2) {
                                PRes::PFail { err } => PRes::PFail { err },
                                PRes::POk { v: _, end: p3r } => {
                                    let p3 = if p2 <= p3r <= input.len() {
                                        p3r
                                    } else {
                                        p2
                                    };
                                    match spec_identifier(input, p3) {
                                        PRes::PFail { err } => PRes::PFail { err },
                                        PRes::POk { v: module, end } => PRes::POk {
                                            v: NamespaceV { lang, module },
                                            end,
                                        },
                                    }
                                },
                            }
                        }
                    },
                }
            },
        }
    }
}

#[verifier::rlimit(60)]
#[verifier::spinoff_prover]
pub fn namespace(input: &[u8], pos: usize) -> (r: Result<(Namespace, usize), ParseError>)
    requires
        pos <= input@.len(),
    ensures
        match spec_namespace(input@, pos as int) {
            PRes::POk { v, end } => r matches Ok((x, e)) && x@ == v && e == end && pos < e
                <= input@.len(),
            PRes::PFail { err } => r == Err::<(Namespace, usize), ParseError>(err),
        },
{
    let n = input.len();
    if !tag_namespace(input, pos) {
        if pos >= n {
            return Err(ParseError::UnexpectedEof);
        }
        return Err(ParseError::Expected);
    }
    let p1 = match blank(input, pos + 9) {
        Ok((_, e)) => e,
        Err(e) => { return Err(e); },
    };
    let (lang, p2) = match identifier(input, p1) {
        Ok(x) => x,
        Err(e) => { return Err(e); },
    };
    let p3 = match blank(input, p2) {
        Ok((_, e)) => e,
        Err(e) => { return Err(e); },
    };
    match identifier(input, p3) {
        Ok((module, end)) => Ok((Namespace { lang, module }, end)),
        Err(e) => Err(e),
    }
}

/// A header: an include or a namespace.
pub open spec fn spec_header(input: Seq<u8>, pos: int) -> PRes<HeaderV> {
    match spec_include(input, pos) {
        PRes::POk { v, end } => PRes::POk { v: HeaderV::Include(v), end },
        PRes::PFail { err: ParseError::Expected } => match spec_namespace(input, pos) {
            PRes::POk { v, end } => PRes::POk { v: HeaderV::Namespace(v), end },
            PRes::PFail { err } => PRes::PFail { err },
        },
        PRes::PFail { err } => PRes::PFail { err },
    }
}

pub fn header(input: &[u8], pos: usize) -> (r: Result<(Header, usize), ParseError>)
    requires
        pos <= input@.len(),
    ensures
        match spec_header(input@, pos as int) {
            PRes::POk { v, end } => r matches Ok((x, e)) && x@ == v && e == end && pos < e
                <= input@.len(),
            PRes::PFail { err } => r == Err::<(Header, usize), ParseError>(err),
        },
{
    match include_(input, pos) {
        Ok((x, e)) => Ok((Header::Include(x), e)),
        Err(ParseError::Expected) => match namespace(input, pos) {
            Ok((x, e)) => Ok((Header::Namespace(x), e)),
            Err(e) => Err(e),
        },
        Err(e) => Err(e),
    }
}

/// A definition: a constant, a typedef, an enum, a struct, a union, an
/// exception or a service, tried in that order.
#[verifier::opaque]
pub open spec fn spec_definition(input: Seq<u8>, pos: int) -> PRes<DefinitionV> {
    match spec_const_(input, pos) {
        PRes::POk { v, end } => PRes::POk { v: DefinitionV::Const(v), end },
        PRes::PFail { err: ParseError::Expected } => match spec_typedef(input, pos) {
            PRes::POk { v, end } => PRes::POk { v: DefinitionV::Typedef(v), end },
            PRes::PFail { err: ParseError::Expected } => match spec_enum_(input, pos) {
                PRes::POk { v, end } => PRes::POk { v: DefinitionV::Enum(v), end },
                PRes::PFail { err: ParseError::Expected } => match spec_struct_(input, pos) {
                    PRes::POk { v, end } => PRes::POk { v: DefinitionV::Struct(v), end },
                    PRes::PFail { err: ParseError::Expected } => match spec_union(input, pos) {
                        PRes::POk { v, end } => PRes::POk { v: DefinitionV::Union(v), end },
                        PRes::PFail { err: ParseError::Expected } => match spec_exception(
                            input,
                            pos,
                        ) {
                            PRes::POk { v, end } => PRes::POk {
                                v: DefinitionV::Exception(v),
                                end,
                            },
                            PRes::PFail { err: ParseError::Expected } => match spec_service(
                                input,
                                pos,
                            ) {
                                PRes::POk { v, end } => PRes::POk {
                                    v: DefinitionV::Service(v),
                                    end,
                                },
                                PRes::PFail { err } => PRes::PFail { err },
                            },
                            PRes::PFail { err } => PRes::PFail { err },
                        },
                        PRes::PFail { err } => PRes::PFail { err },
                    },
                    PRes::PFail { err } => PRes::PFail { err },
                },
                PRes::PFail { err } => PRes::PFail { err },
            },
            PRes::PFail { err } => PRes::PFail { err },
        },
        PRes::PFail { err } => PRes::PFail { err },
    }
}

#[verifier::rlimit(60)]
#[verifier::spinoff_prover]
pub fn definition(input: &[u8], pos: usize) -> (r: Result<(Definition, usize), ParseError>)
    requires
        pos <= input@.len(),
    ensures
        match spec_definition(input@, pos as int) {
            PRes::POk { v, end } => r matches Ok((x, e)) && x@ == v && e == end && pos < e
                <= input@.len(),
            PRes::PFail { err } => r == Err::<(Definition, usize), ParseError>(err),
        },
{
    proof {
        reveal(spec_definition);
    }
    match const_(input, pos) {
        Ok((x, e)) => Ok((Definition::Const(x), e)),
        Err(ParseError::Expected) => match typedef(input, pos) {
            Ok((x, e)) => Ok((Definition::Typedef(x), e)),
            Err(ParseError::Expected) => match enum_(input, pos) {
                Ok((x, e)) => Ok((Definition::Enum(x), e)),
                Err(ParseError::Expected) => match struct_(input, pos) {
                    Ok((x, e)) => Ok((Definition::Struct(x), e)),
                    Err(ParseError::Expected) => match union(input, pos) {
                        Ok((x, e)) => Ok((Definition::Union(x), e)),
                        Err(ParseError::Expected) => match exception(input, pos) {
                            Ok((x, e)) => Ok((Definition::Exception(x), e)),
                            Err(ParseError::Expected) => match service(input, pos) {
                                Ok((x, e)) => Ok((Definition::Service(x), e)),
                                Err(e) => Err(e),
                            },
                            Err(e) => Err(e),
                        },
                        Err(e) => Err(e),
                    },
                    Err(e) => Err(e),
                },
                Err(e) => Err(e),
            },
            Err(e) => Err(e),
        },
        Err(e) => Err(e),
    }
}

/// The headers at the top of a document, blank tolerated after each.
pub open spec fn spec_header_items(input: Seq<u8>, pos: int) -> PRes<Seq<HeaderV>>
    decreases input.len() - pos, 13int,
{
    if pos >= input.len() {
        PRes::POk { v: Seq::empty(), end: pos }
    } else {
        match spec_header(input, pos) {
            PRes::PFail { err: ParseError::Expected } => PRes::POk { v: Seq::empty(), end: pos },
            PRes::PFail { err } => PRes::PFail { err },
            PRes::POk { v, end } => {
                if !(pos < end <= input.len()) {
                    PRes::POk { v: Seq::empty(), end: pos }
                } else {
                    let p1 = spec_opt_blank(input, end);
                    match spec_header_items(input, p1) {
                        PRes::POk { v: rest, end: e } => PRes::POk { v: seq![v] + rest, end: e },
                        PRes::PFail { err } => PRes::PFail { err },
                    }
                }
            },
        }
    }
}

fn header_items(input: &[u8], pos: usize) -> (r: Result<(Vec<Header>, usize), ParseError>)
    requires
        pos <= input@.len(),
    ensures
        match spec_header_items(input@, pos as int) {
            PRes::POk { v, end } => r matches Ok((xs, e)) && headers_view(xs@) == v && e == end
                && pos <= e <= input@.len(),
            PRes::PFail { err } => r == Err::<(Vec<Header>, usize), ParseError>(err),
        },
    decreases input@.len() - pos, 13int,
{
    let mut acc: Vec<Header> = Vec::new();
    let mut i = pos;
    proof {
        lemma_headers_view(Seq::empty());
        assert(acc@ =~= Seq::<Header>::empty());
    }
    loop
        invariant
            pos <= i <= input@.len(),
            spec_header_items(input@, pos as int) == (match spec_header_items(input@, i as int) {
                PRes::POk { v, end } => PRes::POk { v: headers_view(acc@) + v, end },
                PRes::PFail { err } => PRes::PFail { err },
            }),
        decreases input@.len() - i,
    {
        if i >= input.len() {
            proof {
                assert(headers_view(acc@) + Seq::<HeaderV>::empty() =~= headers_view(acc@));
            }
            return Ok((acc, i));
        }
        let (x, e1) = match header(input, i) {
            Ok(y) => y,
            Err(ParseError::Expected) => {
                proof {
                    assert(headers_view(acc@) + Seq::<HeaderV>::empty() =~= headers_view(acc@));
                }
                return Ok((acc, i));
            },
            Err(e) => { return Err(e); },
        };
        let p1 = opt_blank(input, e1);
        proof {
            lemma_headers_view_push(acc@, x);
            assert forall|rest: Seq<HeaderV>|
                true implies headers_view(acc@) + (seq![x@] + rest) =~= headers_view(acc@.push(x))
                + rest by {
                lemma_headers_view_push(acc@, x);
            }
        }
        acc.push(x);
        i = p1;
    }
}

/// The definitions of a document, blank tolerated after each.
pub open spec fn spec_definition_items(input: Seq<u8>, pos: int) -> PRes<Seq<DefinitionV>>
    decreases input.len() - pos, 13int,
{
    if pos >= input.len() {
        PRes::POk { v: Seq::empty(), end: pos }
    } else {
        match spec_definition(input, pos) {
            PRes::PFail { err: ParseError::Expected } => PRes::POk { v: Seq::empty(), end: pos },
            PRes::PFail { err } => PRes::PFail { err },
            PRes::POk { v, end } => {
                if !(pos < end <= input.len()) {
                    PRes::POk { v: Seq::empty(), end: pos }
                } else {
                    let p1 = spec_opt_blank(input, end);
                    match spec_definition_items(input, p1) {
                        PRes::POk { v: rest, end: e } => PRes::POk { v: seq![v] + rest, end: e },
                        PRes::PFail { err } => PRes::PFail { err },
                    }
                }
            },
        }
    }
}

fn definition_items(input: &[u8], pos: usize) -> (r: Result<(Vec<Definition>, usize), ParseError>)
    requires
        pos <= input@.len(),
    ensures
        match spec_definition_items(input@, pos as int) {
            PRes::POk { v, end } => r matches Ok((xs, e)) && definitions_view(xs@) == v && e == end
                && pos <= e <= input@.len(),
            PRes::PFail { err } => r == Err::<(Vec<Definition>, usize), ParseError>(err),
        },
    decreases input@.len() - pos, 13int,
{
    let mut acc: Vec<Definition> = Vec::new();
    let mut i = pos;
    proof {
        lemma_definitions_view(Seq::empty());
        assert(acc@ =~= Seq::<Definition>::empty());
    }
    loop
        invariant
            pos <= i <= input@.len(),
            spec_definition_items(input@, pos as int) == (match spec_definition_items(input@, i as int) {
                PRes::POk { v, end } => PRes::POk { v: definitions_view(acc@) + v, end },
                PRes::PFail { err } => PRes::PFail { err },
            }),
        decreases input@.len() - i,
    {
        if i >= input.len() {
            proof {
                assert(definitions_view(acc@) + Seq::<DefinitionV>::empty() =~= definitions_view(acc@));
            }
            return Ok((acc, i));
        }
        let (x, e1) = match definition(input, i) {
            Ok(y) => y,
            Err(ParseError::Expected) => {
                proof {
                    assert(definitions_view(acc@) + Seq::<DefinitionV>::empty() =~= definitions_view(acc@));
                }
                return Ok((acc, i));
            },
            Err(e) => { return Err(e); },
        };
        let p1 = opt_blank(input, e1);
        proof {
            lemma_definitions_view_push(acc@, x);
            assert forall|rest: Seq<DefinitionV>|
                true implies definitions_view(acc@) + (seq![x@] + rest) =~= definitions_view(acc@.push(x))
                + rest by {
                lemma_definitions_view_push(acc@, x);
            }
        }
        acc.push(x);
        i = p1;
    }
}

/// A whole document: optional blank, the headers, the definitions, and
/// nothing after them.
pub open spec fn spec_document(input: Seq<u8>, pos: int) -> PRes<DocumentV>
    decreases input.len() - pos, 14int,
{
    if !(0 <= pos <= input.len()) {
        PRes::PFail { err: ParseError::Expected }
    } else {
        let p0 = spec_opt_blank(input, pos);
        match spec_header_items(input, p0) {
            PRes::PFail { err } => PRes::PFail { err },
            PRes::POk { v: hs, end: p1 } => match spec_definition_items(input, p1) {
                PRes::PFail { err } => PRes::PFail { err },
                PRes::POk { v: ds, end: p2 } => {
                    if p2 == input.len() {
                        PRes::POk { v: DocumentV { headers: hs, definitions: ds }, end: p2 }
                    } else {
                        PRes::PFail { err: ParseError::Expected }
                    }
                },
            },
        }
    }
}

#[verifier::rlimit(60)]
#[verifier::spinoff_prover]
pub fn document(input: &[u8], pos: usize) -> (r: Result<(Document, usize), ParseError>)
    requires
        pos <= input@.len(),
    ensures
        match spec_document(input@, pos as int) {
            PRes::POk { v, end } => r matches Ok((d, e)) && d@ == v && e == end && pos <= e
                <= input@.len(),
            PRes::PFail { err } => r == Err::<(Document, usize), ParseError>(err),
        },
    decreases input@.len() - pos, 14int,
{
    let p0 = opt_blank(input, pos);
    let (hs, p1) = match header_items(input, p0) {
        Ok(x) => x,
        Err(e) => { return Err(e); },
    };
    let (ds, p2) = match definition_items(input, p1) {
        Ok(x) => x,
        Err(e) => { return Err(e); },
    };
    if p2 == input.len() {
        Ok((Document { headers: hs, definitions: ds }, p2))
    } else {
        Err(ParseError::Expected)
    }
}

impl Document {
    /// Parses a whole IDL text: the document when it is complete and well
    /// formed, nothing when the text ends mid-construct, and the fault
    /// otherwise.
    pub fn parse(input: &str) -> (r: Result<Option<Document>, ParseError>)
        ensures
            match spec_document(input.spec_bytes(), 0) {
                PRes::POk { v, end } => r matches Ok(d) && d matches Some(doc) && doc@ == v,
                PRes::PFail { err: ParseError::UnexpectedEof } => r == Ok::<
                    Option<Document>,
                    ParseError,
                >(None),
                PRes::PFail { err } => r == Err::<Option<Document>, ParseError>(err),
            },
    {
        let bytes = input.as_bytes();
        match document(bytes, 0) {
            Ok((d, _)) => Ok(Some(d)),
            Err(ParseError::UnexpectedEof) => Ok(None),
            Err(e) => Err(e),
        }
    }

    /// Resolving includes, filling field ids and the like would happen
    /// here; nothing is rearranged yet.
    pub fn rearrange(&mut self)
        ensures
            *final(self) == *old(self),
    {
    }
}

/// Parses a whole IDL text; `Document::parse` under a free name.
pub fn parse(input: &str) -> (r: Result<Option<Document>, ParseError>)
    ensures
        match spec_document(input.spec_bytes(), 0) {
            PRes::POk { v, end } => r matches Ok(d) && d matches Some(doc) && doc@ == v,
            PRes::PFail { err: ParseError::UnexpectedEof } => r == Ok::<
                Option<Document>,
                ParseError,
            >(None),
            PRes::PFail { err } => r == Err::<Option<Document>, ParseError>(err),
        },
{
    Document::parse(input)
}

// ---------------------------------------------------------------------------
// Rendering types for the generator.
// ---------------------------------------------------------------------------

/// The type a base-type keyword names; any other name stays a reference.
pub open spec fn spec_ty_of_name(name: Seq<char>) -> TyV {
    if name == "string"@ {
        TyV::String
    } else if name == "void"@ {
        TyV::Void
    } else if name == "byte"@ {
        TyV::Byte
    } else if name == "bool"@ {
        TyV::Bool
    } else if name == "binary"@ {
        TyV::Binary
    } else if name == "i8"@ {
        TyV::I8
    } else if name == "i16"@ {
        TyV::I16
    } else if name == "i32"@ {
        TyV::I32
    } else if name == "i64"@ {
        TyV::I64
    } else if name == "double"@ {
        TyV::Double
    } else {
        TyV::Ident(name)
    }
}

/// The wire type-code expression the generator writes for a type.
pub open spec fn spec_ty_protocol(t: TyV) -> Seq<char> {
    match t {
        TyV::String => "ThriftType::String"@,
        TyV::Void => "ThriftType::Void"@,
        TyV::Bool => "ThriftType::Bool"@,
        TyV::Byte => "ThriftType::Byte"@,
        TyV::Double => "ThriftType::Double"@,
        TyV::I16 => "ThriftType::I16"@,
        TyV::I32 => "ThriftType::I32"@,
        TyV::I64 => "ThriftType::I64"@,
        TyV::Map_(_, _) => "ThriftType::Map"@,
        TyV::List(_) => "ThriftType::List"@,
        TyV::Set_(_) => "ThriftType::Set"@,
        TyV::Binary => "ThriftType::List"@,
        TyV::Ident(s) => s,
        TyV::I8 => "ThriftType::Byte"@,
    }
}

/// The target-language type the generator writes for a type: `double` is
/// the floating primitive, and `binary` is the byte sequence the wire
/// carries.
pub open spec fn spec_ty_rust(t: TyV) -> Seq<char>
    decreases t,
{
    match t {
        TyV::String => "String"@,
        TyV::Void => "()"@,
        TyV::Byte => "u8"@,
        TyV::Bool => "bool"@,
        TyV::Binary => "Vec<u8>"@,
        TyV::I8 => "i8"@,
        TyV::I16 => "i16"@,
        TyV::I32 => "i32"@,
        TyV::I64 => "i64"@,
        TyV::Double => "f64"@,
        TyV::List(s) => "Vec<"@ + spec_ty_rust(*s) + ">"@,
        TyV::Set_(s) => "HashSet<"@ + spec_ty_rust(*s) + ">"@,
        TyV::Map_(a, b) => "HashMap<"@ + spec_ty_rust(*a) + ", "@ + spec_ty_rust(*b) + ">"@,
        TyV::Ident(s) => s,
    }
}

impl Ty {
    /// The type a keyword names, or a reference to a user-defined name.
    pub fn from_name(val: String) -> (r: Ty)
        ensures
            r@ == spec_ty_of_name(val@),
    {
        if val == String::from_str("string") {
            Ty::String
        } else if val == String::from_str("void") {
            Ty::Void
        } else if val == String::from_str("byte") {
            Ty::Byte
        } else if val == String::from_str("bool") {
            Ty::Bool
        } else if val == String::from_str("binary") {
            Ty::Binary
        } else if val == String::from_str("i8") {
            Ty::I8
        } else if val == String::from_str("i16") {
            Ty::I16
        } else if val == String::from_str("i32") {
            Ty::I32
        } else if val == String::from_str("i64") {
            Ty::I64
        } else if val == String::from_str("double") {
            Ty::Double
        } else {
            Ty::Ident(val)
        }
    }

    /// The wire type-code expression for this type; `i8` travels under the
    /// byte code.
    pub fn to_protocol(&self) -> (r: String)
        ensures
            r@ == spec_ty_protocol(ty_view(*self)),
    {
        match self {
            Ty::String => String::from_str("ThriftType::String"),
            Ty::Void => String::from_str("ThriftType::Void"),
            Ty::Bool => String::from_str("ThriftType::Bool"),
            Ty::Byte => String::from_str("ThriftType::Byte"),
            Ty::Double => String::from_str("ThriftType::Double"),
            Ty::I16 => String::from_str("ThriftType::I16"),
            Ty::I32 => String::from_str("ThriftType::I32"),
            Ty::I64 => String::from_str("ThriftType::I64"),
            Ty::Map_(_, _) => String::from_str("ThriftType::Map"),
            Ty::List(_) => String::from_str("ThriftType::List"),
            Ty::Set_(_) => String::from_str("ThriftType::Set"),
            Ty::Binary => String::from_str("ThriftType::List"),
            Ty::Ident(s) => s.clone(),
            Ty::I8 => String::from_str("ThriftType::Byte"),
        }
    }

    /// The target-language type for this type.
    pub fn to_string(&self) -> (r: String)
        ensures
            r@ == spec_ty_rust(ty_view(*self)),
        decreases *self,
    {
        match self {
            Ty::String => String::from_str("String"),
            Ty::Void => String::from_str("()"),
            Ty::Byte => String::from_str("u8"),
            Ty::Bool => String::from_str("bool"),
            Ty::Binary => String::from_str("Vec<u8>"),
            Ty::I8 => String::from_str("i8"),
            Ty::I16 => String::from_str("i16"),
            Ty::I32 => String::from_str("i32"),
            Ty::I64 => String::from_str("i64"),
            Ty::Double => String::from_str("f64"),
            Ty::List(s) => {
                let inner = s.to_string();
                let mut out = String::from_str("Vec<");
                out.append(inner.as_str());
                out.append(">");
                out
            },
            Ty::Set_(s) => {
                let inner = s.to_string();
                let mut out = String::from_str("HashSet<");
                out.append(inner.as_str());
                out.append(">");
                out
            },
            Ty::Map_(a, b) => {
                let ka = a.to_string();
                let kb = b.to_string();
                let mut out = String::from_str("HashMap<");
                out.append(ka.as_str());
                out.append(", ");
                out.append(kb.as_str());
                out.append(">");
                out
            },
            Ty::Ident(s) => s.clone(),
        }
    }
}

} // verus!
