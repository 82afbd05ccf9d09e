//! The IPS patch core: stream decoding and record application.
//!
//! A patch stream is laid out as
//!
//! ```text
//! "PATCH"  record*  "EOF"
//! ```
//!
//! where each record is a 3-byte big-endian target offset, a 2-byte
//! big-endian size field, and then either `size` literal payload bytes
//! (size nonzero) or a 2-byte big-endian run length followed by one fill
//! byte (size zero). Applying a patch copies the base image and then plays
//! every record onto the copy in stream order; a record whose range lies
//! beyond the current end of the image extends it, zero-filling any gap.

use vstd::prelude::*;

verus! {

/// Why applying a patch failed.
#[derive(Clone, Copy, Debug, PartialEq, Eq, Structural)]
pub enum Error {
    /// The patch stream does not begin with the `PATCH` marker.
    ExpectedHeader,
    /// An underlying read, write or seek failed. The byte-level core never
    /// raises this: it is reported by front ends whose byte stores fail.
    IoError,
    /// The patch stream ended while a record field was still being read.
    UnexpectedEof,
}

impl Error {
    /// A short description of the failure, for reporting to a user.
    pub fn message(&self) -> (msg: &'static str)
        ensures
            *self is ExpectedHeader ==> msg@ == "Invalid patch file with unknown header"@,
            *self is IoError ==> msg@ == "Underlying I/O operation failed"@,
            *self is UnexpectedEof ==> msg@ == "Reached end of patch file while decoding"@,
    {
        match *self {
            Error::ExpectedHeader => "Invalid patch file with unknown header",
            Error::IoError => "Underlying I/O operation failed",
            Error::UnexpectedEof => "Reached end of patch file while decoding",
        }
    }
}

/// The five marker bytes `PATCH` that every patch stream must start with.
pub open spec fn spec_magic() -> Seq<u8> {
    seq![0x50u8, 0x41u8, 0x54u8, 0x43u8, 0x48u8]
}

/// The three sentinel bytes `EOF` that end the record sequence.
pub open spec fn spec_sentinel() -> Seq<u8> {
    seq![0x45u8, 0x4Fu8, 0x46u8]
}

/// The value of a big-endian 16-bit field with bytes `hi`, `lo`.
pub open spec fn spec_be16(hi: u8, lo: u8) -> int {
    hi * 0x100 + lo
}

/// The value of a big-endian 24-bit field with bytes `b0`, `b1`, `b2`.
pub open spec fn spec_be24(b0: u8, b1: u8, b2: u8) -> int {
    b0 * 0x10000 + b1 * 0x100 + b2
}

/// Whether the patch stream starts with the `PATCH` marker.
pub open spec fn spec_header_ok(patch: Seq<u8>) -> bool {
    patch.len() >= 5 && patch.subrange(0, 5) == spec_magic()
}

/// Whether the three bytes at `pos` are the `EOF` sentinel.
pub open spec fn spec_sentinel_at(s: Seq<u8>, pos: int) -> bool {
    s[pos] == 0x45u8 && s[pos + 1] == 0x4Fu8 && s[pos + 2] == 0x46u8
}

/// One decoded record header: the target offset, and whether the payload is
/// literal bytes (`size` of them follow in the stream) or a run of one fill
/// byte (`run_length` holds the repetition count exactly when the size field
/// was zero; the fill byte itself follows in the stream).
#[derive(Clone, Copy, Debug, PartialEq, Eq)]
pub struct Record {
    /// Target byte position in the output image, at most 24 bits wide.
    pub offset: u64,
    /// The run length, present exactly for a run-length record.
    pub run_length: Option<u16>,
    /// The size field: the literal payload's length, or zero for a
    /// run-length record.
    pub size: usize,
}

/// What decoding one record header at `pos` yields: the sentinel (`None`),
/// or a record header together with the position just after it, or the
/// truncation error. For a literal record the payload, and for a run-length
/// record the fill byte, still follow at the returned position.
pub open spec fn spec_record_head(s: Seq<u8>, pos: int) -> Result<Option<(Record, int)>, Error> {
    if pos + 3 > s.len() {
        Err(Error::UnexpectedEof)
    } else if spec_sentinel_at(s, pos) {
        Ok(None)
    } else if pos + 5 > s.len() {
        Err(Error::UnexpectedEof)
    } else {
        let offset = spec_be24(s[pos], s[pos + 1], s[pos + 2]);
        let size = spec_be16(s[pos + 3], s[pos + 4]);
        if size == 0 {
            if pos + 7 > s.len() {
                Err(Error::UnexpectedEof)
            } else {
                let count = spec_be16(s[pos + 5], s[pos + 6]);
                Ok(Some((
                    Record {
                        offset: offset as u64,
                        run_length: Some(count as u16),
                        size: 0,
                    },
                    pos + 7,
                )))
            }
        } else {
            Ok(Some((
                Record { offset: offset as u64, run_length: None, size: size as usize },
                pos + 5,
            )))
        }
    }
}

impl Record {
    /// Decodes one record header from `bytes` at the cursor `*pos`, moving
    /// the cursor past what was consumed. Returns `Ok(None)` when the three
    /// bytes at the cursor are the `EOF` sentinel, `Ok(Some(record))` for a
    /// decoded record header, and `Err(Error::UnexpectedEof)` when the
    /// stream ends inside the offset, size or run-length field; the cursor
    /// does not move on failure.
    pub fn try_from_bytes(bytes: &Vec<u8>, pos: &mut usize) -> (r: Result<Option<Record>, Error>)
        ensures
            match r {
                Ok(Some(rec)) => spec_record_head(bytes@, *old(pos) as int)
                    == Ok::<Option<(Record, int)>, Error>(Some((rec, *final(pos) as int)))
                    && *old(pos) < *final(pos) <= bytes@.len(),
                Ok(None) => spec_record_head(bytes@, *old(pos) as int)
                    == Ok::<Option<(Record, int)>, Error>(None)
                    && *final(pos) == *old(pos) + 3,
                Err(e) => spec_record_head(bytes@, *old(pos) as int)
                    == Err::<Option<(Record, int)>, Error>(e)
                    && *final(pos) == *old(pos),
            },
    {
        let p = *pos;
        if p >= bytes.len() || bytes.len() - p < 3 {
            return Err(Error::UnexpectedEof);
        }
        let b0 = bytes[p];
        let b1 = bytes[p + 1];
        let b2 = bytes[p + 2];
        if b0 == 0x45 && b1 == 0x4F && b2 == 0x46 {
            *pos = p + 3;
            return Ok(None);
        }
        if bytes.len() - p < 5 {
            return Err(Error::UnexpectedEof);
        }
        let size: u16 = (bytes[p + 3] as u16) * 0x100 + (bytes[p + 4] as u16);
        let offset: u32 = (b0 as u32) * 0x10000 + (b1 as u32) * 0x100 + (b2 as u32);
        if size == 0 {
            if bytes.len() - p < 7 {
                return Err(Error::UnexpectedEof);
            }
            let count: u16 = (bytes[p + 5] as u16) * 0x100 + (bytes[p + 6] as u16);
            *pos = p + 7;
            Ok(Some(Record { offset: offset as u64, run_length: Some(count), size: 0 }))
        } else {
            *pos = p + 5;
            Ok(Some(Record { offset: offset as u64, run_length: None, size: size as usize }))
        }
    }
}

/// Confirms that the patch stream begins with the `PATCH` marker.
fn header_ok(patch: &Vec<u8>) -> (ok: bool)
    ensures
        ok == spec_header_ok(patch@),
{
    if patch.len() < 5 {
        return false;
    }
    let ok = patch[0] == 0x50 && patch[1] == 0x41 && patch[2] == 0x54 && patch[3] == 0x43
        && patch[4] == 0x48;
    proof {
        assert(spec_magic()[0] == 0x50u8);
        assert(spec_magic()[1] == 0x41u8);
        assert(spec_magic()[2] == 0x54u8);
        assert(spec_magic()[3] == 0x43u8);
        assert(spec_magic()[4] == 0x48u8);
        if ok {
            assert(patch@.subrange(0, 5) =~= spec_magic());
        }
    }
    ok
}

/// The output image grown with zero bytes until `offset` is inside it, as
/// seeking past the end of a file-backed store and then writing does.
pub open spec fn spec_zero_pad(out: Seq<u8>, offset: int) -> Seq<u8> {
    if offset <= out.len() {
        out
    } else {
        out + Seq::new((offset - out.len()) as nat, |i: int| 0u8)
    }
}

/// `s` with `payload` overwriting the range starting at `offset`, the image
/// growing if that range reaches past its end. Meaningful for
/// `0 <= offset <= s.len()`.
pub open spec fn spec_overlay(s: Seq<u8>, offset: int, payload: Seq<u8>) -> Seq<u8> {
    Seq::new(
        if s.len() >= offset + payload.len() {
            s.len()
        } else {
            (offset + payload.len()) as nat
        },
        |i: int|
            if offset <= i && i < offset + payload.len() {
                payload[i - offset]
            } else {
                s[i]
            },
    )
}

/// One record's effect on the output image: its resolved payload bytes
/// overwrite the range starting at `offset`. A range beyond the image's end
/// first grows it, zero-filling the gap; a record with an empty payload
/// writes nothing and so grows nothing.
pub open spec fn spec_write(out: Seq<u8>, offset: int, payload: Seq<u8>) -> Seq<u8> {
    if payload.len() == 0 {
        out
    } else {
        spec_overlay(spec_zero_pad(out, offset), offset, payload)
    }
}

/// Writes `payload` into the output image at `offset`, growing the image
/// where the range reaches past its end, as a seek-then-write does on a
/// file-backed store.
fn write_at(out: &mut Vec<u8>, offset: usize, payload: &Vec<u8>)
    requires
        offset + payload@.len() <= usize::MAX,
    ensures
        final(out)@ == spec_write(old(out)@, offset as int, payload@),
{
    if payload.len() == 0 {
        assert(out@ =~= spec_write(out@, offset as int, payload@));
        return;
    }
    let ghost orig = out@;
    while out.len() < offset
        invariant
            orig.len() <= out@.len() <= if orig.len() >= offset as int {
                orig.len() as int
            } else {
                offset as int
            },
            out@ == orig + Seq::new((out@.len() - orig.len()) as nat, |i: int| 0u8),
        decreases offset as int - out@.len(),
    {
        out.push(0);
        assert(out@ =~= orig + Seq::new((out@.len() - orig.len()) as nat, |i: int| 0u8));
    }
    let ghost padded = spec_zero_pad(orig, offset as int);
    assert(out@ =~= padded);
    let mut i: usize = 0;
    while i < payload.len()
        invariant
            offset + payload@.len() <= usize::MAX,
            offset <= padded.len(),
            i <= payload@.len(),
            out@ == spec_overlay(padded, offset as int, payload@.subrange(0, i as int)),
        decreases payload@.len() - i,
    {
        if offset + i < out.len() {
            let idx = offset + i;
            out.set(idx, payload[i]);
        } else {
            assert(offset + i == out@.len());
            out.push(payload[i]);
        }
        i = i + 1;
        assert(out@ =~= spec_overlay(padded, offset as int, payload@.subrange(0, i as int)));
    }
    assert(payload@.subrange(0, payload@.len() as int) =~= payload@);
    assert(out@ =~= spec_write(orig, offset as int, payload@));
}

/// Builds the resolved payload of a run-length record: `fill`, `count`
/// times over.
fn repeat_byte(fill: u8, count: u16) -> (r: Vec<u8>)
    ensures
        r@ == Seq::new(count as nat, |i: int| fill),
{
    let n = count as usize;
    let mut r: Vec<u8> = Vec::new();
    let mut i: usize = 0;
    while i < n
        invariant
            i <= n,
            r@ == Seq::new(i as nat, |j: int| fill),
        decreases n - i,
    {
        r.push(fill);
        i = i + 1;
        assert(r@ =~= Seq::new(i as nat, |j: int| fill));
    }
    r
}

/// Copies `n` bytes of `src` starting at `start` into a fresh image; with
/// `start` 0 and `n` the whole length this is the base-copy step that gives
/// the output image its starting state.
fn copy_range(src: &Vec<u8>, start: usize, n: usize) -> (r: Vec<u8>)
    requires
        start + n <= src@.len(),
    ensures
        r@ == src@.subrange(start as int, start as int + n as int),
{
    let total = src.len();
    assert(src@.len() == total);
    let mut r: Vec<u8> = Vec::new();
    let mut i: usize = 0;
    while i < n
        invariant
            i <= n,
            start + n <= src@.len() <= usize::MAX,
            r@ == src@.subrange(start as int, start as int + i as int),
        decreases n - i,
    {
        r.push(src[start + i]);
        i = i + 1;
        assert(r@ =~= src@.subrange(start as int, start as int + i as int));
    }
    r
}

/// The record stream of `patch` from `pos` on, played onto the image `out`:
/// the final image and the position just past the sentinel, or
/// `Error::UnexpectedEof` where the stream ends before the sentinel closes
/// it. Records take effect in stream order, each through [`spec_write`].
pub open spec fn spec_apply_records(patch: Seq<u8>, pos: int, out: Seq<u8>) -> Result<
    (Seq<u8>, int),
    Error,
>
    decreases patch.len() - pos,
{
    match spec_record_head(patch, pos) {
        Err(e) => Err(e),
        Ok(None) => Ok((out, pos + 3)),
        Ok(Some((rec, next))) => match rec.run_length {
            Some(count) => {
                if next + 1 > patch.len() {
                    Err(Error::UnexpectedEof)
                } else {
                    spec_apply_records(
                        patch,
                        next + 1,
                        spec_write(out, rec.offset as int, Seq::new(count as nat, |i: int| patch[next])),
                    )
                }
            },
            None => {
                if next + rec.size > patch.len() {
                    Err(Error::UnexpectedEof)
                } else {
                    spec_apply_records(
                        patch,
                        next + rec.size,
                        spec_write(out, rec.offset as int, patch.subrange(next, next + rec.size)),
                    )
                }
            },
        },
    }
}

/// The whole patching operation on byte sequences: reject a stream that
/// does not start with the `PATCH` marker, then play the record stream
/// onto a copy of the base image.
pub open spec fn spec_apply(patch: Seq<u8>, base: Seq<u8>) -> Result<Seq<u8>, Error> {
    if !spec_header_ok(patch) {
        Err(Error::ExpectedHeader)
    } else {
        match spec_apply_records(patch, 5, base) {
            Ok((out, end)) => Ok(out),
            Err(e) => Err(e),
        }
    }
}

/// An empty patch stream is rejected for its missing marker, before
/// anything else is looked at.
pub proof fn lemma_empty_patch_rejected(base: Seq<u8>)
    ensures
        spec_apply(Seq::<u8>::empty(), base) == Err::<Seq<u8>, Error>(Error::ExpectedHeader),
{
}

/// A patch stream that does not start with the five `PATCH` marker bytes is
/// rejected, whatever the rest of the stream holds.
pub proof fn lemma_bad_header_rejected(patch: Seq<u8>, base: Seq<u8>)
    requires
        !(patch.len() >= 5 && patch.subrange(0, 5) == spec_magic()),
    ensures
        spec_apply(patch, base) == Err::<Seq<u8>, Error>(Error::ExpectedHeader),
{
}

/// Inside the range a record targets, the image holds the record's own
/// bytes after the write.
pub proof fn lemma_write_in_range(out: Seq<u8>, offset: int, payload: Seq<u8>, i: int)
    requires
        0 <= offset,
        offset <= i < offset + payload.len(),
    ensures
        i < spec_write(out, offset, payload).len(),
        spec_write(out, offset, payload)[i] == payload[i - offset],
{
}

/// Outside the range a record targets, a write leaves the image's bytes
/// untouched (and never shortens it).
pub proof fn lemma_write_outside_range(out: Seq<u8>, offset: int, payload: Seq<u8>, i: int)
    requires
        0 <= offset,
        0 <= i < out.len(),
        !(offset <= i < offset + payload.len()),
    ensures
        out.len() <= spec_write(out, offset, payload).len(),
        spec_write(out, offset, payload)[i] == out[i],
{
}

/// Where the ranges of two writes overlap, the later write decides the
/// bytes of the overlap.
pub proof fn lemma_later_record_wins(
    out: Seq<u8>,
    offset1: int,
    payload1: Seq<u8>,
    offset2: int,
    payload2: Seq<u8>,
    i: int,
)
    requires
        0 <= offset1,
        0 <= offset2,
        offset2 <= i < offset2 + payload2.len(),
    ensures
        i < spec_write(spec_write(out, offset1, payload1), offset2, payload2).len(),
        spec_write(spec_write(out, offset1, payload1), offset2, payload2)[i] == payload2[i
            - offset2],
{
    lemma_write_in_range(spec_write(out, offset1, payload1), offset2, payload2, i);
}

/// Patching is a pure function of the two byte sequences: running the same
/// patch twice over two fresh copies of one base image gives the same
/// outcome both times.
pub proof fn lemma_apply_deterministic(
    patch1: Seq<u8>,
    base1: Seq<u8>,
    patch2: Seq<u8>,
    base2: Seq<u8>,
)
    requires
        patch1 == patch2,
        base1 == base2,
    ensures
        spec_apply(patch1, base1) == spec_apply(patch2, base2),
{
}

/// The shortest well-formed patch — the marker at once followed by the
/// sentinel — leaves any base image unchanged.
pub proof fn lemma_empty_record_stream_identity(base: Seq<u8>)
    ensures
        spec_apply(spec_magic() + spec_sentinel(), base) == Ok::<Seq<u8>, Error>(base),
{
    let patch = spec_magic() + spec_sentinel();
    assert(patch.len() == 8);
    assert(patch.subrange(0, 5) =~= spec_magic());
    assert(patch[5] == 0x45u8 && patch[6] == 0x4Fu8 && patch[7] == 0x46u8);
    assert(spec_apply_records(patch, 5, base) == Ok::<(Seq<u8>, int), Error>((base, 8)));
}

/// Once a record stream is being decoded, the only way it can fail is to
/// run out of bytes: every error it raises is `UnexpectedEof`.
proof fn lemma_records_error_is_eof(patch: Seq<u8>, pos: int, out: Seq<u8>)
    requires
        spec_apply_records(patch, pos, out) is Err,
    ensures
        spec_apply_records(patch, pos, out) == Err::<(Seq<u8>, int), Error>(Error::UnexpectedEof),
    decreases patch.len() - pos,
{
    match spec_record_head(patch, pos) {
        Err(e) => {},
        Ok(None) => {},
        Ok(Some((rec, next))) => match rec.run_length {
            Some(count) => {
                if next + 1 <= patch.len() {
                    lemma_records_error_is_eof(
                        patch,
                        next + 1,
                        spec_write(
                            out,
                            rec.offset as int,
                            Seq::new(count as nat, |i: int| patch[next]),
                        ),
                    );
                }
            },
            None => {
                if next + rec.size <= patch.len() {
                    lemma_records_error_is_eof(
                        patch,
                        next + rec.size,
                        spec_write(out, rec.offset as int, patch.subrange(next, next + rec.size)),
                    );
                }
            },
        },
    }
}

/// After a valid marker, the only failure a patch stream can produce is
/// `UnexpectedEof`: the record grammar rejects nothing but truncation.
pub proof fn lemma_failure_after_header_is_eof(patch: Seq<u8>, base: Seq<u8>)
    requires
        spec_header_ok(patch),
        spec_apply(patch, base) is Err,
    ensures
        spec_apply(patch, base) == Err::<Seq<u8>, Error>(Error::UnexpectedEof),
{
    lemma_records_error_is_eof(patch, 5, base);
}

/// Cutting a fully consumed record stream short anywhere before its end
/// turns the outcome into `UnexpectedEof`.
proof fn lemma_truncated_records_eof(patch: Seq<u8>, pos: int, out: Seq<u8>, n: int)
    requires
        0 <= pos <= n < patch.len(),
        spec_apply_records(patch, pos, out) matches Ok(done) && done.1 == patch.len(),
    ensures
        spec_apply_records(patch.subrange(0, n), pos, out) == Err::<(Seq<u8>, int), Error>(
            Error::UnexpectedEof,
        ),
    decreases patch.len() - pos,
{
    let t = patch.subrange(0, n);
    match spec_record_head(patch, pos) {
        Err(e) => {
            assert(false);
        },
        Ok(None) => {
            assert(pos + 3 > t.len());
        },
        Ok(Some((rec, next))) => {
            if pos + 3 <= n {
                assert(!spec_sentinel_at(t, pos));
                if pos + 5 <= n {
                    match rec.run_length {
                        Some(count) => {
                            if pos + 7 <= n {
                                assert(spec_record_head(t, pos) == Ok::<
                                    Option<(Record, int)>,
                                    Error,
                                >(Some((rec, next))));
                                if pos + 8 <= n {
                                    let fills = Seq::new(count as nat, |i: int| patch[next]);
                                    assert(Seq::new(count as nat, |i: int| t[next]) =~= fills);
                                    lemma_truncated_records_eof(
                                        patch,
                                        next + 1,
                                        spec_write(out, rec.offset as int, fills),
                                        n,
                                    );
                                }
                            }
                        },
                        None => {
                            assert(spec_record_head(t, pos) == Ok::<Option<(Record, int)>, Error>(
                                Some((rec, next)),
                            ));
                            if next + rec.size <= n {
                                let pay = patch.subrange(next, next + rec.size);
                                assert(t.subrange(next, next + rec.size) =~= pay);
                                lemma_truncated_records_eof(
                                    patch,
                                    next + rec.size,
                                    spec_write(out, rec.offset as int, pay),
                                    n,
                                );
                            }
                        },
                    }
                }
            }
        },
    }
}

/// A patch stream that is valid up to its marker but ends before a
/// complete record or the sentinel is read fails with `UnexpectedEof`:
/// cutting a patch whose record stream consumes the whole stream anywhere
/// after the marker gives that error.
pub proof fn lemma_truncated_patch_eof(patch: Seq<u8>, base: Seq<u8>, n: int)
    requires
        spec_header_ok(patch),
        spec_apply_records(patch, 5, base) matches Ok(done) && done.1 == patch.len(),
        5 <= n < patch.len(),
    ensures
        spec_apply(patch.subrange(0, n), base) == Err::<Seq<u8>, Error>(Error::UnexpectedEof),
{
    let t = patch.subrange(0, n);
    assert(t.subrange(0, 5) =~= patch.subrange(0, 5));
    lemma_truncated_records_eof(patch, 5, base, n);
}

/// A record stream only ever grows the image it plays onto.
proof fn lemma_records_output_len(patch: Seq<u8>, pos: int, out: Seq<u8>)
    requires
        spec_apply_records(patch, pos, out) is Ok,
    ensures
        spec_apply_records(patch, pos, out)->Ok_0.0.len() >= out.len(),
    decreases patch.len() - pos,
{
    match spec_record_head(patch, pos) {
        Err(e) => {},
        Ok(None) => {},
        Ok(Some((rec, next))) => match rec.run_length {
            Some(count) => {
                if next + 1 <= patch.len() {
                    let out2 = spec_write(
                        out,
                        rec.offset as int,
                        Seq::new(count as nat, |i: int| patch[next]),
                    );
                    assert(out2.len() >= out.len());
                    lemma_records_output_len(patch, next + 1, out2);
                }
            },
            None => {
                if next + rec.size <= patch.len() {
                    let out2 = spec_write(
                        out,
                        rec.offset as int,
                        patch.subrange(next, next + rec.size),
                    );
                    assert(out2.len() >= out.len());
                    lemma_records_output_len(patch, next + rec.size, out2);
                }
            },
        },
    }
}

/// A successfully patched image is never shorter than the base image:
/// records overwrite or extend, they never trim.
pub proof fn lemma_output_at_least_base(patch: Seq<u8>, base: Seq<u8>)
    requires
        spec_apply(patch, base) is Ok,
    ensures
        spec_apply(patch, base)->Ok_0.len() >= base.len(),
{
    lemma_records_output_len(patch, 5, base);
}

/// Applies the IPS patch stream `patch` to the base image `base` and
/// returns the patched image.
///
/// The result is exactly what [`spec_apply`] states: `Err(ExpectedHeader)`
/// where the stream does not start with the `PATCH` marker,
/// `Err(UnexpectedEof)` where it ends inside a record or before the `EOF`
/// sentinel, and otherwise the base image with every record's bytes
/// overlaid in stream order.
pub fn apply_patch(patch: &Vec<u8>, base: &Vec<u8>) -> (r: Result<Vec<u8>, Error>)
    ensures
        match r {
            Ok(out) => spec_apply(patch@, base@) == Ok::<Seq<u8>, Error>(out@),
            Err(e) => spec_apply(patch@, base@) == Err::<Seq<u8>, Error>(e),
        },
{
    if !header_ok(patch) {
        return Err(Error::ExpectedHeader);
    }
    let mut out = copy_range(base, 0, base.len());
    assert(out@ =~= base@);
    let patch_len = patch.len();
    assert(patch@.len() == patch_len);
    let mut pos: usize = 5;
    loop
        invariant
            spec_header_ok(patch@),
            5 <= pos <= patch@.len(),
            patch@.len() <= usize::MAX,
            spec_apply_records(patch@, pos as int, out@) == spec_apply_records(patch@, 5, base@),
        decreases patch@.len() - pos,
    {
        let ghost pos0 = pos as int;
        let ghost out0 = out@;
        match Record::try_from_bytes(patch, &mut pos) {
            Err(e) => {
                return Err(e);
            },
            Ok(None) => {
                proof {
                    assert(spec_apply_records(patch@, pos0, out0)
                        == Ok::<(Seq<u8>, int), Error>((out0, pos0 + 3)));
                }
                return Ok(out);
            },
            Ok(Some(rec)) => {
                let ghost next = pos as int;
                match rec.run_length {
                    Some(count) => {
                        if pos >= patch.len() {
                            assert(spec_apply_records(patch@, pos0, out0)
                                == Err::<(Seq<u8>, int), Error>(Error::UnexpectedEof));
                            return Err(Error::UnexpectedEof);
                        }
                        let fill = patch[pos];
                        pos = pos + 1;
                        let payload = repeat_byte(fill, count);
                        assert(rec.offset < 0x1000000) by {
                            assert(spec_record_head(patch@, pos0)
                                == Ok::<Option<(Record, int)>, Error>(Some((rec, next))));
                        }
                        write_at(&mut out, rec.offset as usize, &payload);
                        assert(payload@ =~= Seq::new(count as nat, |i: int| patch@[next]));
                    },
                    None => {
                        if patch.len() - pos < rec.size {
                            assert(spec_apply_records(patch@, pos0, out0)
                                == Err::<(Seq<u8>, int), Error>(Error::UnexpectedEof));
                            return Err(Error::UnexpectedEof);
                        }
                        let payload = copy_range(patch, pos, rec.size);
                        pos = pos + rec.size;
                        assert(rec.offset < 0x1000000 && rec.size <= 0xFFFF) by {
                            assert(spec_record_head(patch@, pos0)
                                == Ok::<Option<(Record, int)>, Error>(Some((rec, next))));
                        }
                        write_at(&mut out, rec.offset as usize, &payload);
                    },
                }
            },
        }
    }
}

} // verus!
