//! The header block of an embedded member, and how it is rewritten once
//! the size of the member's body is known.
//!
//! A member whose size is unknown when its header is written gets a
//! header with a placeholder size. After the body has been streamed out,
//! the size is written into the header, the checksum is computed anew,
//! and the header is written again where the placeholder lies.

use vstd::arithmetic::div_mod::{lemma_div_denominator, lemma_mod_breakdown, lemma_small_mod};
use vstd::prelude::*;

verus! {

/// One header block of a tar-style container. Its view is its 512 bytes.
pub struct HeaderBlock {
    bytes: [u8; 512],
}

impl View for HeaderBlock {
    type V = Seq<u8>;

    closed spec fn view(&self) -> Seq<u8> {
        self.bytes@
    }
}

/// `base` to the power of `k`.
pub open spec fn power(base: int, k: nat) -> int
    decreases k,
{
    if k == 0 {
        1
    } else {
        base * power(base, (k - 1) as nat)
    }
}

/// The digit of `value` at place `k` in base `base`.
pub open spec fn digit(value: int, base: int, k: nat) -> int {
    (value / power(base, k)) % base
}

/// The `n` lowest digits of `value` in base `base`, the highest first,
/// each as the byte `zero` plus the digit.
pub open spec fn digit_text(value: int, base: int, zero: int, n: nat) -> Seq<u8> {
    Seq::new(n, |i: int| (zero + digit(value, base, (n - 1 - i) as nat)) as u8)
}

/// The number that `text` writes in base `base` with the byte `zero` for
/// the digit 0, the highest digit first.
pub open spec fn positional(text: Seq<u8>, base: int, zero: int) -> int
    decreases text.len(),
{
    if text.len() == 0 {
        0
    } else {
        base * positional(text.drop_last(), base, zero) + (text.last() - zero)
    }
}

/// A numeric field of `len` bytes in octal: the `len - 1` lowest octal
/// digits of `value` as ASCII, padded with `0` on the left, and a NUL.
pub open spec fn octal_field(value: int, len: nat) -> Seq<u8> {
    digit_text(value, 8, 0x30, (len - 1) as nat).push(0u8)
}

/// A numeric field of 12 bytes in binary: a first byte with only its high
/// bit set, three zero bytes, and `value` in eight bytes, the highest
/// first.
pub open spec fn binary_field(value: int) -> Seq<u8> {
    seq![0x80u8, 0u8, 0u8, 0u8] + digit_text(value, 256, 0, 8)
}

/// The least size that no longer fits the octal form of the size field.
pub open spec fn octal_limit() -> int {
    8589934592
}

/// The size field for a body of `size` bytes: octal where that fits,
/// binary from 8 GiB on.
pub open spec fn size_field(size: u64) -> Seq<u8> {
    if size >= octal_limit() {
        binary_field(size as int)
    } else {
        octal_field(size as int, 12)
    }
}

/// `block` with `field` written at offset `at`.
pub open spec fn with_field(block: Seq<u8>, at: int, field: Seq<u8>) -> Seq<u8> {
    Seq::new(
        block.len(),
        |i: int|
            if at <= i < at + field.len() {
                field[i - at]
            } else {
                block[i]
            },
    )
}

/// The sum of the bytes of `s`.
pub open spec fn byte_sum(s: Seq<u8>) -> int
    decreases s.len(),
{
    if s.len() == 0 {
        0
    } else {
        byte_sum(s.drop_last()) + s.last()
    }
}

/// The checksum of a header block: the sum of its bytes, with the eight
/// bytes of the checksum field counted as spaces.
pub open spec fn checksum_of(block: Seq<u8>) -> int {
    byte_sum(block.subrange(0, 148)) + 8 * 0x20 + byte_sum(block.subrange(156, 512))
}

/// The index of the first NUL of `field` from `from` on, or its length.
pub open spec fn text_end(field: Seq<u8>, from: int) -> int
    decreases field.len() - from,
{
    if from < 0 || from >= field.len() {
        field.len() as int
    } else if field[from] == 0 {
        from
    } else {
        text_end(field, from + 1)
    }
}

/// The number that a numeric field holds: with the high bit of its first
/// byte set, its last eight bytes in binary; else its text up to the
/// first NUL in octal.
pub open spec fn field_value(field: Seq<u8>) -> int {
    if field[0] >= 0x80 {
        positional(field.subrange(field.len() - 8, field.len() as int), 256, 0)
    } else {
        positional(field.subrange(0, text_end(field, 0)), 8, 0x30)
    }
}

/// The size that a header block states for its body.
pub open spec fn size_read(block: Seq<u8>) -> int {
    field_value(block.subrange(124, 136))
}

/// The checksum that a header block holds.
pub open spec fn checksum_read(block: Seq<u8>) -> int {
    field_value(block.subrange(148, 156))
}

/// A header block as it is once the size of its body is known: the size
/// written into it, and then the checksum over the result.
pub open spec fn patched(block: Seq<u8>, size: u64) -> Seq<u8> {
    let sized = with_field(block, 124, size_field(size));
    with_field(sized, 148, octal_field(checksum_of(sized), 8))
}

/// The offset behind a member body of `body_len` bytes that begins at
/// `body_at`, if 64 bits hold it.
pub open spec fn member_end_of(body_at: u64, body_len: u64) -> Option<u64> {
    if body_at + padded_len(body_len) <= u64::MAX {
        Some((body_at + padded_len(body_len)) as u64)
    } else {
        None
    }
}

/// The mode of the member that stands for a directory of mode `mode`:
/// the file type turned from directory to regular file.
pub open spec fn member_mode(mode: u32) -> u32 {
    mode ^ 0o140000u32
}

/// The header of the member that stands for a directory, made from a
/// header filled from the directory's metadata, whose mode is `mode`.
pub open spec fn member_header_of(base: Seq<u8>, mode: u32) -> Seq<u8> {
    with_field(base, 100, octal_field(member_mode(mode) as int, 8)).update(156, 0x30u8)
}

/// The mode that `tar::Header::mode` reads from a header block, if it
/// reads one.
pub uninterp spec fn stored_mode(block: Seq<u8>) -> Option<u32>;

/// `tar::Header::set_size` on a copy of the block: the size field, the
/// twelve bytes at offset 124, holds the size in octal with a closing NUL,
/// or in binary from 8 GiB on; no other byte changes.
#[verifier::external_body]
fn tar_set_size(block: &mut HeaderBlock, size: u64)
    ensures
        final(block)@ == with_field(old(block)@, 124, size_field(size)),
{
    let mut header = tar::Header::from_byte_slice(&block.bytes).clone();
    header.set_size(size);
    block.bytes = *header.as_bytes();
}

/// `tar::Header::set_cksum` on a copy of the block: the checksum field,
/// the eight bytes at offset 148, holds the checksum of the block in
/// octal with a closing NUL; no other byte changes.
#[verifier::external_body]
fn tar_set_cksum(block: &mut HeaderBlock)
    ensures
        final(block)@ == with_field(old(block)@, 148, octal_field(checksum_of(old(block)@), 8)),
{
    let mut header = tar::Header::from_byte_slice(&block.bytes).clone();
    header.set_cksum();
    block.bytes = *header.as_bytes();
}

/// `tar::Header::set_mode` on a copy of the block: the mode field, the
/// eight bytes at offset 100, holds the seven lowest octal digits of the
/// mode with a closing NUL; no other byte changes.
#[verifier::external_body]
fn tar_set_mode(block: &mut HeaderBlock, mode: u32)
    ensures
        final(block)@ == with_field(old(block)@, 100, octal_field(mode as int, 8)),
{
    let mut header = tar::Header::from_byte_slice(&block.bytes).clone();
    header.set_mode(mode);
    block.bytes = *header.as_bytes();
}

/// `tar::Header::set_entry_type` with `EntryType::Regular` on a copy of
/// the block: the type flag, the byte at offset 156, is `0`; no other
/// byte changes.
#[verifier::external_body]
fn tar_set_regular(block: &mut HeaderBlock)
    ensures
        final(block)@ == old(block)@.update(156, 0x30u8),
{
    let mut header = tar::Header::from_byte_slice(&block.bytes).clone();
    header.set_entry_type(tar::EntryType::Regular);
    block.bytes = *header.as_bytes();
}

/// `tar::Header::mode`: the mode that the block's mode field holds, or
/// nothing where the field cannot be read. It depends on the bytes of the
/// block alone.
#[verifier::external_body]
fn tar_mode(block: &HeaderBlock) -> (mode: Option<u32>)
    ensures
        mode == stored_mode(block@),
{
    tar::Header::from_byte_slice(&block.bytes).mode().ok()
}

impl HeaderBlock {
    /// The header block made of `bytes`.
    pub fn from_bytes(bytes: [u8; 512]) -> (block: Self)
        ensures
            block@ == bytes@,
    {
        HeaderBlock { bytes }
    }

    /// The bytes of the block.
    pub fn to_bytes(&self) -> (bytes: [u8; 512])
        ensures
            bytes@ == self@,
            self@.len() == 512,
    {
        self.bytes
    }
}

/// The mode of the member that stands for a directory of mode `mode`.
pub fn subarchive_mode(mode: u32) -> (out: u32)
    ensures
        out == member_mode(mode),
        mode & 0o170000 == 0o040000 ==> out & 0o170000 == 0o100000,
        out & 0o7777 == mode & 0o7777,
{
    let out = mode ^ 0o140000;
    assert(mode & 0o170000 == 0o040000 ==> (mode ^ 0o140000) & 0o170000 == 0o100000)
        by (bit_vector);
    assert((mode ^ 0o140000) & 0o7777 == mode & 0o7777) by (bit_vector);
    out
}

/// The header of the member that stands for a directory whose mode is
/// `mode`, from the header `base` filled from the directory's metadata:
/// the mode turned into that of a regular file, and the type flag set to
/// regular file.
pub fn member_header_with_mode(base: &HeaderBlock, mode: u32) -> (out: HeaderBlock)
    ensures
        out@ == member_header_of(base@, mode),
{
    let mut out = HeaderBlock { bytes: base.bytes };
    tar_set_mode(&mut out, subarchive_mode(mode));
    tar_set_regular(&mut out);
    out
}

/// The header of the member that stands for a directory, from the header
/// `base` filled from the directory's metadata; nothing where the mode of
/// `base` cannot be read.
pub fn member_header(base: &HeaderBlock) -> (out: Option<HeaderBlock>)
    ensures
        match stored_mode(base@) {
            Some(mode) => out matches Some(header) && header@ == member_header_of(base@, mode),
            None => out is None,
        },
{
    match tar_mode(base) {
        Some(mode) => Some(member_header_with_mode(base, mode)),
        None => None,
    }
}

/// The header `block` as it is to be written again once the body of its
/// member is known to hold `size` bytes: it states that size, and its
/// checksum is that of the block.
pub fn patch_header(block: &HeaderBlock, size: u64) -> (out: HeaderBlock)
    ensures
        out@ == patched(block@, size),
        out@.len() == 512,
        size_read(out@) == size,
        checksum_read(out@) == checksum_of(out@),
        forall|i: int|
            0 <= i < 512 && !(124 <= i < 136) && !(148 <= i < 156) ==> out@[i] == block@[i],
{
    let mut out = HeaderBlock { bytes: block.bytes };
    tar_set_size(&mut out, size);
    tar_set_cksum(&mut out);
    proof {
        law_header_patch_round_trip(block@, size);
    }
    out
}

/// The length of a body of `body_len` bytes with the padding that fills
/// its last block.
pub open spec fn padded_len(body_len: u64) -> int {
    ((body_len + 511) / 512) * 512
}

/// The offset behind a member body of `body_len` bytes that begins at
/// `body_at`, with the padding that fills its last block; nothing where
/// that offset is beyond what 64 bits hold.
pub fn member_end(body_at: u64, body_len: u64) -> (end: Option<u64>)
    ensures
        end == member_end_of(body_at, body_len),
{
    let blocks = body_len / 512 + (if body_len % 512 == 0 {
        0u64
    } else {
        1u64
    });
    assert(blocks == (body_len + 511) / 512);
    match blocks.checked_mul(512) {
        Some(padded) => body_at.checked_add(padded),
        None => None,
    }
}

/// Where the header of a member lies whose body of `body_len` bytes,
/// padded to whole blocks, ends at `end`: one block before the body.
/// Nothing where the member cannot end there.
pub fn member_start(end: u64, body_len: u64) -> (start: Option<u64>)
    ensures
        match start {
            Some(at) => at + 512 + padded_len(body_len) == end,
            None => end < 512 + padded_len(body_len),
        },
{
    match member_end(0, body_len) {
        Some(padded) => {
            if end >= padded && end - padded >= 512 {
                Some(end - padded - 512)
            } else {
                None
            }
        },
        None => None,
    }
}

/// The value of `n` digits of `value` is `value` below the `n`-th power
/// of the base.
pub proof fn lemma_digits_round_trip(value: int, base: int, zero: int, n: nat)
    requires
        0 <= value,
        2 <= base,
        0 <= zero,
        zero + base <= 256,
    ensures
        power(base, n) > 0,
        positional(digit_text(value, base, zero, n), base, zero) == value % power(base, n),
    decreases n,
{
    let text = digit_text(value, base, zero, n);
    if n == 0 {
        assert(value % 1 == 0);
    } else {
        let m = (n - 1) as nat;
        lemma_digits_round_trip(value / base, base, zero, m);
        let shorter = digit_text(value / base, base, zero, m);
        assert(text.drop_last() =~= shorter) by {
            assert forall|i: int| 0 <= i < m implies text.drop_last()[i] == shorter[i] by {
                let k = (m - 1 - i) as nat;
                lemma_power_positive(base, k);
                lemma_div_denominator(value, base, power(base, k));
                assert(power(base, (k + 1) as nat) == base * power(base, k));
                assert(digit(value, base, (n - 1 - i) as nat) == digit(value / base, base, k));
            }
        }
        assert(digit(value, base, 0) == value % base);
        assert(0 <= value % base < base);
        assert(text.last() == (zero + value % base) as u8);
        assert(text.last() - zero == value % base);
        lemma_mod_breakdown(value, base, power(base, m));
        assert(power(base, n) == base * power(base, m));
    }
}

/// A power of a positive base is positive.
pub proof fn lemma_power_positive(base: int, k: nat)
    requires
        base > 0,
    ensures
        power(base, k) > 0,
    decreases k,
{
    if k > 0 {
        lemma_power_positive(base, (k - 1) as nat);
        assert(base * power(base, (k - 1) as nat) > 0) by (nonlinear_arith)
            requires
                base > 0,
                power(base, (k - 1) as nat) > 0,
        ;
    }
}

/// The sum of bytes is at most 255 for each.
pub proof fn lemma_byte_sum_bound(s: Seq<u8>)
    ensures
        0 <= byte_sum(s) <= 255 * s.len(),
    decreases s.len(),
{
    if s.len() > 0 {
        lemma_byte_sum_bound(s.drop_last());
    }
}

/// An octal field reads back as the value it was written from, where
/// the value fits its digits.
pub proof fn lemma_octal_field_reads(value: int, len: nat)
    requires
        2 <= len,
        0 <= value < power(8, (len - 1) as nat),
    ensures
        field_value(octal_field(value, len)) == value,
{
    let n = (len - 1) as nat;
    let field = octal_field(value, len);
    let text = digit_text(value, 8, 0x30, n);
    assert forall|i: int| 0 <= i < n implies 0x30 <= #[trigger] field[i] <= 0x37 by {
        assert(field[i] == text[i]);
        lemma_power_positive(8, (n - 1 - i) as nat);
        assert(0 <= digit(value, 8, (n - 1 - i) as nat) < 8);
    }
    assert(field[n as int] == 0);
    lemma_text_end(field, 0, n as int);
    assert(field.subrange(0, n as int) =~= text);
    lemma_digits_round_trip(value, 8, 0x30, n);
    lemma_small_mod(value as nat, power(8, n) as nat);
}

/// The text of a field ends at its first NUL.
proof fn lemma_text_end(field: Seq<u8>, from: int, end: int)
    requires
        0 <= from <= end < field.len(),
        field[end] == 0,
        forall|i: int| from <= i < end ==> field[i] != 0,
    ensures
        text_end(field, from) == end,
    decreases end - from,
{
    if from < end {
        lemma_text_end(field, from + 1, end);
    }
}

/// What is read back from a rewritten header. After the size of a
/// member's body has been written into its header, the header states
/// exactly that size, whatever the header held before and whatever the
/// size; its checksum field holds the checksum of the block as it then
/// is; and no byte outside the two fields has changed.
pub proof fn law_header_patch_round_trip(block: Seq<u8>, size: u64)
    requires
        block.len() == 512,
    ensures
        patched(block, size).len() == 512,
        size_read(patched(block, size)) == size,
        checksum_read(patched(block, size)) == checksum_of(patched(block, size)),
        forall|i: int|
            0 <= i < 512 && !(124 <= i < 136) && !(148 <= i < 156) ==> patched(block, size)[i]
                == block[i],
{
    let field = size_field(size);
    let sized = with_field(block, 124, field);
    let sum = checksum_of(sized);
    let out = patched(block, size);
    assert(field.len() == 12);
    assert(out.subrange(124, 136) =~= field);
    assert(power(8, 11) == 8589934592) by {
        reveal_with_fuel(power, 12);
    }
    if size >= octal_limit() {
        assert(field[0] == 0x80);
        assert(field.subrange(4, 12) =~= digit_text(size as int, 256, 0, 8));
        lemma_digits_round_trip(size as int, 256, 0, 8);
        assert(power(256, 8) == 0x1_0000_0000_0000_0000) by {
            reveal_with_fuel(power, 9);
        }
        lemma_small_mod(size as nat, power(256, 8) as nat);
    } else {
        lemma_octal_field_reads(size as int, 12);
    }
    lemma_byte_sum_bound(sized.subrange(0, 148));
    lemma_byte_sum_bound(sized.subrange(156, 512));
    assert(power(8, 7) == 2097152) by {
        reveal_with_fuel(power, 8);
    }
    lemma_octal_field_reads(sum, 8);
    assert(out.subrange(148, 156) =~= octal_field(sum, 8));
    assert(out.subrange(0, 148) =~= sized.subrange(0, 148));
    assert(out.subrange(156, 512) =~= sized.subrange(156, 512));
}

} // verus!
