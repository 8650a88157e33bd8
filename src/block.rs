//! The binary block format: `#`, one digit `d` from 1 to 9, `d` decimal
//! digits giving the sample count `n`, then the samples.

use vstd::prelude::*;
use crate::ascii::{
    all_digits, decimal_digits, decimal_value, lemma_decimal_length, lemma_decimal_round_trip, parse_u32_range,
    pow10, BLOCK_MARK, DIGIT_ZERO, LINE_END,
};
use crate::waveform::{
    Error, Format, MaxTransferSize, RecieveData, WAVeformCommands, BYTE_TRANSFER_POINTS,
    WORD_TRANSFER_POINTS,
};

verus! {

/// The block opens with `#` and a length-of-length digit from 1 to 9.
pub open spec fn envelope_ok(resp: Seq<u8>) -> bool {
    resp.len() >= 2 && resp[0] == BLOCK_MARK && DIGIT_ZERO < resp[1] <= DIGIT_ZERO + 9
}

/// Where the samples begin: after the mark, the digit and the length field.
pub open spec fn payload_start(resp: Seq<u8>) -> int {
    2 + (resp[1] - DIGIT_ZERO)
}

/// The length field is all there and decimal.
pub open spec fn length_ok(resp: Seq<u8>) -> bool {
    envelope_ok(resp) && resp.len() >= payload_start(resp) && all_digits(
        resp.subrange(2, payload_start(resp)),
    )
}

/// The sample count the block declares.
pub open spec fn declared_length(resp: Seq<u8>) -> nat {
    decimal_value(resp.subrange(2, payload_start(resp)))
}

/// What follows the header.
pub open spec fn payload_region(resp: Seq<u8>) -> Seq<u8> {
    resp.subrange(payload_start(resp), resp.len() as int)
}

/// The header is well formed and declares at most `ceiling` samples.
pub open spec fn header_ok(resp: Seq<u8>, ceiling: nat) -> bool {
    length_ok(resp) && declared_length(resp) <= ceiling
}

/// The header error of a response, if any, for a format of the given ceiling.
pub open spec fn header_error(resp: Seq<u8>, size: MaxTransferSize, e: Error) -> bool {
    if !envelope_ok(resp) {
        e is MalformedEnvelope
    } else if !length_ok(resp) {
        e is MalformedLength
    } else {
        e matches Error::TransferSizeExceeded(t) && t == size
    }
}

/// The samples a byte block delivers, or `None` when it is cut short
/// without the line terminator. A short block whose last byte is the line
/// terminator has that byte replaced by zero.
pub open spec fn byte_samples(resp: Seq<u8>) -> Option<Seq<u8>> {
    let rest = payload_region(resp);
    let n = declared_length(resp);
    if rest.len() >= n {
        Some(rest.subrange(0, n as int))
    } else if rest.len() > 0 && rest.last() == LINE_END {
        Some(rest.update(rest.len() - 1, 0))
    } else {
        None
    }
}

/// How many bytes of the response a byte block takes: a complete block
/// also takes the one terminator byte that follows it, if any.
pub open spec fn byte_block_consumed(resp: Seq<u8>) -> int {
    let rest = payload_region(resp);
    let n = declared_length(resp);
    if rest.len() > n {
        payload_start(resp) + n + 1
    } else {
        resp.len() as int
    }
}

/// A little-endian 16-bit word.
pub open spec fn le_word(lo: u8, hi: u8) -> u16 {
    (lo + 256 * hi) as u16
}

/// The samples of a word block: `n` little-endian words.
pub open spec fn word_samples(resp: Seq<u8>) -> Seq<u16> {
    let rest = payload_region(resp);
    Seq::new(declared_length(resp), |i: int| le_word(rest[2 * i], rest[2 * i + 1]))
}

/// Reads the header: the start of the samples and the declared count.
pub fn parse_block_header(response: &[u8], size: MaxTransferSize) -> (r: Result<(usize, u32), Error>)
    ensures
        r matches Ok((h, n)) ==> header_ok(response@, size.spec_to_u32() as nat)
            && h == payload_start(response@) && n == declared_length(response@),
        r matches Err(e) ==> !header_ok(response@, size.spec_to_u32() as nat)
            && header_error(response@, size, e),
        r is Err <==> !header_ok(response@, size.spec_to_u32() as nat),
{
    if response.len() < 2 || response[0] != BLOCK_MARK || response[1] <= DIGIT_ZERO
        || response[1] > DIGIT_ZERO + 9 {
        return Err(Error::MalformedEnvelope);
    }
    let h: usize = 2 + (response[1] - DIGIT_ZERO) as usize;
    if response.len() < h {
        return Err(Error::MalformedLength);
    }
    let n = match parse_u32_range(response, 2, h) {
        Some(n) => n,
        None => {
            proof {
                let t = response@.subrange(2, h as int);
                if all_digits(t) {
                    lemma_short_decimal_fits(t);
                }
            }
            return Err(Error::MalformedLength);
        },
    };
    if n > size.to_u32() {
        return Err(Error::TransferSizeExceeded(size));
    }
    Ok((h, n))
}

/// Nine digits or fewer always fit in `u32`.
proof fn lemma_short_decimal_fits(t: Seq<u8>)
    requires
        t.len() <= 9,
        all_digits(t),
    ensures
        decimal_value(t) < 1000000000,
{
    lemma_decimal_below_pow(t);
    reveal_with_fuel(crate::ascii::pow10, 10);
    lemma_pow_mono(t.len() as nat, 9);
}

proof fn lemma_decimal_below_pow(t: Seq<u8>)
    requires
        all_digits(t),
    ensures
        decimal_value(t) < crate::ascii::pow10(t.len() as nat),
    decreases t.len(),
{
    if t.len() > 0 {
        let p = t.drop_last();
        assert(all_digits(p)) by {
            assert forall|i: int| 0 <= i < p.len() implies crate::ascii::is_digit(#[trigger] p[i]) by {
                assert(p[i] == t[i]);
            }
        }
        lemma_decimal_below_pow(p);
        assert(crate::ascii::is_digit(t[t.len() - 1]));
        let a = decimal_value(p);
        let b = crate::ascii::pow10(p.len() as nat);
        assert(crate::ascii::pow10(t.len() as nat) == 10 * b);
        assert(a * 10 + 9 < 10 * b) by (nonlinear_arith)
            requires a < b;
    }
}

proof fn lemma_pow_mono(a: nat, b: nat)
    requires
        a <= b,
    ensures
        crate::ascii::pow10(a) <= crate::ascii::pow10(b),
    decreases b,
{
    if a < b {
        lemma_pow_mono(a, (b - 1) as nat);
        assert(crate::ascii::pow10(b) == 10 * crate::ascii::pow10((b - 1) as nat));
    }
}

/// Decodes a byte block into the front of `buf`, which keeps the rest of
/// its samples. Returns how many bytes of the response the block took.
pub fn decode_byte_block(response: &[u8], buf: &mut Vec<u8>) -> (r: Result<usize, Error>)
    requires
        old(buf)@.len() == BYTE_TRANSFER_POINTS,
    ensures
        final(buf)@.len() == old(buf)@.len(),
        !header_ok(response@, BYTE_TRANSFER_POINTS as nat) ==> (r matches Err(e) && header_error(
            response@,
            MaxTransferSize::BYTE,
            e,
        ) && final(buf)@ == old(buf)@),
        header_ok(response@, BYTE_TRANSFER_POINTS as nat) ==> match byte_samples(response@) {
            Some(samples) => r == Ok::<usize, Error>(byte_block_consumed(response@) as usize)
                && final(buf)@ == samples + old(buf)@.subrange(samples.len() as int, old(buf)@.len() as int),
            None => r matches Err(Error::TruncatedPayload) && final(buf)@ == old(buf)@,
        },
{
    let (h, n) = parse_block_header(response, MaxTransferSize::BYTE)?;
    let ghost rest = payload_region(response@);
    let ghost old_buf = buf@;
    let avail: usize = response.len() - h;
    let n: usize = n as usize;
    let take: usize = if avail < n { avail } else { n };
    if take < n && (take == 0 || response[response.len() - 1] != LINE_END) {
        return Err(Error::TruncatedPayload);
    }
    let mut i: usize = 0;
    while i < take
        invariant
            take <= n <= BYTE_TRANSFER_POINTS,
            take <= avail,
            h + avail == response@.len(),
            response@.len() <= usize::MAX,
            rest == response@.subrange(h as int, response@.len() as int),
            0 <= i <= take,
            buf@.len() == old_buf.len(),
            old_buf.len() == BYTE_TRANSFER_POINTS,
            forall|j: int| 0 <= j < i ==> buf@[j] == rest[j],
            forall|j: int| i <= j < buf@.len() ==> buf@[j] == old_buf[j],
        decreases take - i,
    {
        buf.set(i, response[h + i]);
        i = i + 1;
    }
    if take < n {
        buf.set(take - 1, 0);
        assert(buf@ =~= rest.update(rest.len() - 1, 0) + old_buf.subrange(take as int, old_buf.len() as int));
        Ok(response.len())
    } else {
        assert(buf@ =~= rest.subrange(0, n as int) + old_buf.subrange(n as int, old_buf.len() as int));
        if avail > n {
            Ok(h + n + 1)
        } else {
            Ok(response.len())
        }
    }
}

/// Decodes a word block into the front of `buf`, which keeps the rest of
/// its samples.
pub fn decode_word_block(response: &[u8], buf: &mut Vec<u16>) -> (r: Result<(), Error>)
    requires
        old(buf)@.len() == WORD_TRANSFER_POINTS,
    ensures
        final(buf)@.len() == old(buf)@.len(),
        !header_ok(response@, WORD_TRANSFER_POINTS as nat) ==> (r matches Err(e) && header_error(
            response@,
            MaxTransferSize::WORD,
            e,
        ) && final(buf)@ == old(buf)@),
        header_ok(response@, WORD_TRANSFER_POINTS as nat) ==> if payload_region(response@).len() < 2
            * declared_length(response@) {
            r matches Err(Error::IncompleteData) && final(buf)@ == old(buf)@
        } else {
            r is Ok && final(buf)@ == word_samples(response@) + old(buf)@.subrange(
                declared_length(response@) as int,
                old(buf)@.len() as int,
            )
        },
{
    let (h, n) = parse_block_header(response, MaxTransferSize::WORD)?;
    let ghost rest = payload_region(response@);
    let ghost old_buf = buf@;
    let avail: usize = response.len() - h;
    let n: usize = n as usize;
    if avail < 2 * n {
        return Err(Error::IncompleteData);
    }
    let mut i: usize = 0;
    while i < n
        invariant
            n <= WORD_TRANSFER_POINTS,
            2 * n <= avail,
            h + avail == response@.len(),
            response@.len() <= usize::MAX,
            rest == response@.subrange(h as int, response@.len() as int),
            0 <= i <= n,
            buf@.len() == old_buf.len(),
            old_buf.len() == WORD_TRANSFER_POINTS,
            forall|j: int| 0 <= j < i ==> buf@[j] == le_word(rest[2 * j], rest[2 * j + 1]),
            forall|j: int| i <= j < buf@.len() ==> buf@[j] == old_buf[j],
        decreases n - i,
    {
        let lo = response[h + 2 * i];
        let hi = response[h + 2 * i + 1];
        let word: u16 = lo as u16 + (hi as u16) * 256;
        buf.set(i, word);
        i = i + 1;
    }
    assert(buf@ =~= word_samples(response@) + old_buf.subrange(n as int, old_buf.len() as int));
    Ok(())
}

/// What decoding a byte block does to a buffer and what it reports.
pub open spec fn byte_block_effect(resp: Seq<u8>, before: Seq<u8>, after: Seq<u8>, r: Result<(), Error>) -> bool {
    if !header_ok(resp, BYTE_TRANSFER_POINTS as nat) {
        r matches Err(e) && header_error(resp, MaxTransferSize::BYTE, e) && after == before
    } else {
        match byte_samples(resp) {
            Some(samples) => r is Ok && after == samples + before.subrange(samples.len() as int, before.len() as int),
            None => r matches Err(Error::TruncatedPayload) && after == before,
        }
    }
}

/// What decoding a word block does to a buffer and what it reports.
pub open spec fn word_block_effect(resp: Seq<u8>, before: Seq<u16>, after: Seq<u16>, r: Result<(), Error>) -> bool {
    if !header_ok(resp, WORD_TRANSFER_POINTS as nat) {
        r matches Err(e) && header_error(resp, MaxTransferSize::WORD, e) && after == before
    } else if payload_region(resp).len() < 2 * declared_length(resp) {
        r matches Err(Error::IncompleteData) && after == before
    } else {
        r is Ok && after == word_samples(resp) + before.subrange(declared_length(resp) as int, before.len() as int)
    }
}

impl WAVeformCommands {
    /// Takes the device's answer to a data query into the sample buffer,
    /// decoded by the current format. ASC data is accepted and not decoded.
    pub fn get_data(&mut self, response: &[u8]) -> (r: Result<(), Error>)
        requires
            old(self).wf(),
        ensures
            final(self).wf(),
            *final(self) == (WAVeformCommands { data: final(self).data, ..*old(self) }),
            old(self).format == Format::ASC ==> r is Ok && final(self).data == old(self).data,
            old(self).format == Format::BYTE ==> (old(self).data matches RecieveData::BYTE(before)
                && final(self).data matches RecieveData::BYTE(after)
                && byte_block_effect(response@, before@, after@, r)),
            old(self).format == Format::WORD ==> (old(self).data matches RecieveData::WORD(before)
                && final(self).data matches RecieveData::WORD(after)
                && word_block_effect(response@, before@, after@, r)),
    {
        let mut taken = RecieveData::BYTE(Vec::new());
        core::mem::swap(&mut self.data, &mut taken);
        match taken {
            RecieveData::BYTE(mut buf) => {
                let res = decode_byte_block(response, &mut buf);
                self.data = RecieveData::BYTE(buf);
                match res {
                    Ok(_) => Ok(()),
                    Err(e) => Err(e),
                }
            },
            RecieveData::WORD(mut buf) => {
                let res = decode_word_block(response, &mut buf);
                self.data = RecieveData::WORD(buf);
                res
            },
            RecieveData::ASC(buf) => {
                self.data = RecieveData::ASC(buf);
                Ok(())
            },
        }
    }
}

/// The header of a block of `n` samples, with the shortest length field.
pub open spec fn block_header(n: nat) -> Seq<u8> {
    seq![BLOCK_MARK, (DIGIT_ZERO + decimal_digits(n).len()) as u8] + decimal_digits(n)
}

/// The header of a transfer-sized block is well formed and declares `n`.
proof fn lemma_block_header(n: nat, rest: Seq<u8>)
    requires
        n <= BYTE_TRANSFER_POINTS,
    ensures
        header_ok(block_header(n) + rest, BYTE_TRANSFER_POINTS as nat),
        declared_length(block_header(n) + rest) == n,
        payload_start(block_header(n) + rest) == block_header(n).len(),
        payload_region(block_header(n) + rest) == rest,
{
    let resp = block_header(n) + rest;
    let digits = decimal_digits(n);
    lemma_decimal_round_trip(n);
    reveal_with_fuel(pow10, 7);
    lemma_decimal_length(n, 6);
    assert(resp[0] == BLOCK_MARK);
    assert(resp[1] == (DIGIT_ZERO + digits.len()) as u8);
    assert(payload_start(resp) == 2 + digits.len());
    assert(resp.subrange(2, payload_start(resp)) =~= digits);
    assert(payload_region(resp) =~= rest);
}

/// Encoding samples as a block and decoding it gives the samples back. The
/// decoder takes the block and, when anything follows it, exactly one
/// terminator byte more.
pub proof fn lemma_byte_block_round_trip(samples: Seq<u8>, trailer: Seq<u8>)
    requires
        samples.len() <= BYTE_TRANSFER_POINTS,
    ensures
        header_ok(block_header(samples.len()) + samples + trailer, BYTE_TRANSFER_POINTS as nat),
        byte_samples(block_header(samples.len()) + samples + trailer) == Some(samples),
        byte_block_consumed(block_header(samples.len()) + samples + trailer) == block_header(
            samples.len(),
        ).len() + samples.len() + if trailer.len() > 0 {
            1int
        } else {
            0int
        },
{
    let h = block_header(samples.len());
    assert(h + samples + trailer =~= h + (samples + trailer));
    lemma_block_header(samples.len(), samples + trailer);
    assert((samples + trailer).subrange(0, samples.len() as int) =~= samples);
}

/// A byte block cut short is accepted only when the last byte that came is
/// the line terminator, and that byte then reads as zero.
pub proof fn lemma_short_byte_block(n: nat, received: Seq<u8>)
    requires
        n <= BYTE_TRANSFER_POINTS,
        received.len() < n,
    ensures
        header_ok(block_header(n) + received, BYTE_TRANSFER_POINTS as nat),
        byte_samples(block_header(n) + received) == if received.len() > 0 && received.last() == LINE_END {
            Some(received.update(received.len() - 1, 0))
        } else {
            None
        },
        byte_block_consumed(block_header(n) + received) == block_header(n).len() + received.len(),
{
    lemma_block_header(n, received);
}

} // verus!
