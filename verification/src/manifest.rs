//! The per-snapshot manifest: the record of a snapshot's stamp and file list,
//! written last into its directory as the completion marker.  A snapshot
//! directory without a well-formed manifest was never completed and is
//! untrustworthy.  The encoding is one line of magic, one line with the
//! capture stamp, then one line per file record with the path length-prefixed
//! (so any path bytes round-trip); the name is not stored, it is recomputed
//! from the stamp.  The parser accepts a byte string exactly when it is the
//! canonical encoding of the well-formed snapshot it returns.

use vstd::prelude::*;

use crate::BackupError;
use crate::catalog::{FileRecord, FileRecordV, Snapshot, SnapshotV};
use crate::checksum::{file_contents_matches, Digest};
use crate::set_namer::{dec_digits, set_name, spec_set_name, DASH};

verus! {

/// The line separator.
pub const NEWLINE: u8 = 10;

/// The field separator inside a line.
pub const SPACE: u8 = 32;

/// The magic first line, `dhbmanifest1`, that marks a completed snapshot.
pub open spec fn magic_bytes() -> Seq<u8> {
    seq![100u8, 104u8, 98u8, 109u8, 97u8, 110u8, 105u8, 102u8, 101u8, 115u8, 116u8, 49u8]
}

/// The decimal bytes of a signed value: a dash, then the magnitude.
pub open spec fn spec_dec_i64(v: i64) -> Seq<u8> {
    if v < 0 {
        seq![DASH] + dec_digits((-(v as int)) as nat, 1)
    } else {
        dec_digits(v as nat, 1)
    }
}

/// One record's line: size, modification time, the four digest words, the
/// path length, then that many path bytes.
pub open spec fn spec_record_line(f: FileRecordV) -> Seq<u8> {
    dec_digits(f.size_bytes as nat, 1) + seq![SPACE] + spec_dec_i64(f.modified_at) + seq![SPACE]
        + dec_digits(f.checksum.w0 as nat, 1) + seq![SPACE] + dec_digits(f.checksum.w1 as nat, 1)
        + seq![SPACE] + dec_digits(f.checksum.w2 as nat, 1) + seq![SPACE] + dec_digits(
        f.checksum.w3 as nat,
        1,
    ) + seq![SPACE] + dec_digits(f.relative_path.len(), 1) + seq![SPACE] + f.relative_path
        + seq![NEWLINE]
}

/// All the records' lines, in order.
pub open spec fn spec_record_lines(files: Seq<FileRecordV>) -> Seq<u8>
    decreases files.len(),
{
    if files.len() == 0 {
        Seq::empty()
    } else {
        spec_record_lines(files.drop_last()) + spec_record_line(files.last())
    }
}

/// The whole manifest: magic, the stamp line, the record lines.
pub open spec fn spec_manifest(s: SnapshotV) -> Seq<u8> {
    magic_bytes() + seq![NEWLINE] + spec_dec_i64(s.created_at) + seq![SPACE] + dec_digits(
        s.sequence as nat,
        1,
    ) + seq![NEWLINE] + spec_record_lines(s.files)
}

/// Append the decimal bytes of a signed value.
fn push_decimal_i64(out: &mut Vec<u8>, v: i64)
    ensures
        final(out)@ == old(out)@ + spec_dec_i64(v),
{
    if v < 0 {
        out.push(DASH);
        let mag: u64 = if v == i64::MIN {
            9223372036854775808
        } else {
            (-v) as u64
        };
        proof {
            assert(mag == (-(v as int)) as nat);
        }
        crate::set_namer::push_decimal(out, mag, 1);
        proof {
            assert(final(out)@ =~= old(out)@ + spec_dec_i64(v));
        }
    } else {
        crate::set_namer::push_decimal(out, v as u64, 1);
    }
}

/// Encode a snapshot's manifest; see `spec_manifest`.
#[verifier::rlimit(80)]
pub fn manifest_encode(snap: &Snapshot) -> (r: Vec<u8>)
    ensures
        r@ == spec_manifest(snap@),
{
    let mut out: Vec<u8> = Vec::new();
    out.push(100);
    out.push(104);
    out.push(98);
    out.push(109);
    out.push(97);
    out.push(110);
    out.push(105);
    out.push(102);
    out.push(101);
    out.push(115);
    out.push(116);
    out.push(49);
    out.push(NEWLINE);
    proof {
        assert(out@ =~= magic_bytes() + seq![NEWLINE]);
    }
    push_decimal_i64(&mut out, snap.created_at);
    out.push(SPACE);
    crate::set_namer::push_decimal(&mut out, snap.sequence, 1);
    out.push(NEWLINE);
    let ghost header = out@;
    proof {
        assert(out@ =~= magic_bytes() + seq![NEWLINE] + spec_dec_i64(snap@.created_at) + seq![SPACE]
            + dec_digits(snap@.sequence as nat, 1) + seq![NEWLINE]);
        assert(out@ + spec_record_lines(snap@.files.take(0)) =~= out@);
    }
    let mut i: usize = 0;
    while i < snap.files.len()
        invariant
            i <= snap.files.len(),
            snap@.files.len() == snap.files@.len(),
            header == magic_bytes() + seq![NEWLINE] + spec_dec_i64(snap@.created_at) + seq![SPACE]
                + dec_digits(snap@.sequence as nat, 1) + seq![NEWLINE],
            out@ == header + spec_record_lines(snap@.files.take(i as int)),
        decreases snap.files.len() - i,
    {
        let f = &snap.files[i];
        let ghost line_start = out@;
        crate::set_namer::push_decimal(&mut out, f.size_bytes, 1);
        out.push(SPACE);
        push_decimal_i64(&mut out, f.modified_at);
        out.push(SPACE);
        proof {
            assert(out@ =~= line_start + (dec_digits(f@.size_bytes as nat, 1) + seq![SPACE]
                + spec_dec_i64(f@.modified_at) + seq![SPACE]));
        }
        let ghost mid1 = out@;
        crate::set_namer::push_decimal(&mut out, f.checksum.w0, 1);
        out.push(SPACE);
        crate::set_namer::push_decimal(&mut out, f.checksum.w1, 1);
        out.push(SPACE);
        crate::set_namer::push_decimal(&mut out, f.checksum.w2, 1);
        out.push(SPACE);
        crate::set_namer::push_decimal(&mut out, f.checksum.w3, 1);
        out.push(SPACE);
        proof {
            assert(out@ =~= mid1 + (dec_digits(f@.checksum.w0 as nat, 1) + seq![SPACE]
                + dec_digits(f@.checksum.w1 as nat, 1) + seq![SPACE] + dec_digits(
                f@.checksum.w2 as nat,
                1,
            ) + seq![SPACE] + dec_digits(f@.checksum.w3 as nat, 1) + seq![SPACE]));
        }
        let ghost mid2 = out@;
        crate::set_namer::push_decimal(&mut out, f.relative_path.len() as u64, 1);
        out.push(SPACE);
        let mut j: usize = 0;
        let ghost before_path = out@;
        while j < f.relative_path.len()
            invariant
                j <= f.relative_path.len(),
                out@ == before_path + f.relative_path@.take(j as int),
            decreases f.relative_path.len() - j,
        {
            out.push(f.relative_path[j]);
            assert(out@ =~= before_path + f.relative_path@.take(j + 1 as int));
            j = j + 1;
        }
        out.push(NEWLINE);
        proof {
            assert(before_path + f.relative_path@.take(f.relative_path@.len() as int) =~=
                before_path + f.relative_path@);
            assert(out@ =~= mid2 + (dec_digits(f@.relative_path.len(), 1) + seq![SPACE]
                + f@.relative_path + seq![NEWLINE]));
            assert(out@ =~= line_start + spec_record_line(f@));
            assert(snap@.files.take(i + 1 as int).drop_last() =~= snap@.files.take(i as int));
            assert(snap@.files.take(i + 1 as int).last() == f@);
            assert(spec_record_lines(snap@.files.take(i + 1 as int)) == spec_record_lines(
                snap@.files.take(i as int),
            ) + spec_record_line(f@));
            assert(out@ =~= header + spec_record_lines(snap@.files.take(i + 1 as int)));
        }
        i = i + 1;
    }
    proof {
        assert(snap@.files.take(snap.files@.len() as int) =~= snap@.files);
        assert(out@ =~= spec_manifest(snap@));
    }
    out
}

/// A decimal digit byte.
pub open spec fn is_digit(b: u8) -> bool {
    48 <= b <= 57
}

/// What the digit-run reader yields from position `pos` with the number read
/// so far in `acc`: the value and the end position, or nothing on no digit at
/// all or on a value past `u64::MAX`.
pub open spec fn spec_eat_u64(bytes: Seq<u8>, pos: int, acc: u64, any: bool) -> Option<(u64, int)>
    decreases bytes.len() - pos,
{
    if pos < bytes.len() && is_digit(bytes[pos]) {
        let d = (bytes[pos] - 48) as int;
        if acc as int * 10 + d <= u64::MAX {
            spec_eat_u64(bytes, pos + 1, (acc as int * 10 + d) as u64, true)
        } else {
            None
        }
    } else {
        if any {
            Some((acc, pos))
        } else {
            None
        }
    }
}

/// What reading one expected byte yields: the next position, or nothing.
pub open spec fn spec_eat(bytes: Seq<u8>, pos: int, b: u8) -> Option<int> {
    if pos < bytes.len() && bytes[pos] == b {
        Some(pos + 1)
    } else {
        None
    }
}

/// What the signed-number reader yields: an optional dash, a magnitude, and
/// the checks that fold it into an `i64`.
pub open spec fn spec_eat_i64(bytes: Seq<u8>, pos: int) -> Option<(i64, int)> {
    let neg = pos < bytes.len() && bytes[pos] == DASH;
    let p1 = if neg {
        pos + 1
    } else {
        pos
    };
    match spec_eat_u64(bytes, p1, 0, false) {
        None => None,
        Some((mag, p2)) => if neg {
            if mag == 9223372036854775808 {
                Some((i64::MIN, p2))
            } else if mag < 9223372036854775808 {
                Some(((-(mag as int)) as i64, p2))
            } else {
                None
            }
        } else {
            if mag <= i64::MAX as u64 {
                Some((mag as i64, p2))
            } else {
                None
            }
        },
    }
}

/// What reading exactly `n` raw bytes yields: those bytes and the position
/// after them, or nothing if fewer remain.
pub open spec fn spec_eat_exact(bytes: Seq<u8>, pos: int, n: u64) -> Option<(Seq<u8>, int)> {
    if 0 <= pos && pos + n <= bytes.len() {
        Some((bytes.subrange(pos, pos + n), pos + n))
    } else {
        None
    }
}

/// What parsing one record line yields.
pub open spec fn spec_parse_record(bytes: Seq<u8>, pos: int) -> Option<(FileRecordV, int)> {
    match spec_eat_u64(bytes, pos, 0, false) {
        None => None,
        Some((size_bytes, p)) => match spec_eat(bytes, p, SPACE) {
            None => None,
            Some(p) => match spec_eat_i64(bytes, p) {
                None => None,
                Some((modified_at, p)) => match spec_eat(bytes, p, SPACE) {
                    None => None,
                    Some(p) => match spec_eat_u64(bytes, p, 0, false) {
                        None => None,
                        Some((w0, p)) => match spec_eat(bytes, p, SPACE) {
                            None => None,
                            Some(p) => match spec_eat_u64(bytes, p, 0, false) {
                                None => None,
                                Some((w1, p)) => match spec_eat(bytes, p, SPACE) {
                                    None => None,
                                    Some(p) => match spec_eat_u64(bytes, p, 0, false) {
                                        None => None,
                                        Some((w2, p)) => match spec_eat(bytes, p, SPACE) {
                                            None => None,
                                            Some(p) => match spec_eat_u64(bytes, p, 0, false) {
                                                None => None,
                                                Some((w3, p)) => match spec_eat(bytes, p, SPACE) {
                                                    None => None,
                                                    Some(p) => match spec_eat_u64(bytes, p, 0, false) {
                                                        None => None,
                                                        Some((plen, p)) => match spec_eat(
                                                            bytes,
                                                            p,
                                                            SPACE,
                                                        ) {
                                                            None => None,
                                                            Some(p) => match spec_eat_exact(
                                                                bytes,
                                                                p,
                                                                plen,
                                                            ) {
                                                                None => None,
                                                                Some((path, p)) => match spec_eat(
                                                                    bytes,
                                                                    p,
                                                                    NEWLINE,
                                                                ) {
                                                                    None => None,
                                                                    Some(p) => Some(
                                                                        (
                                                                            FileRecordV {
                                                                                relative_path: path,
                                                                                size_bytes,
                                                                                modified_at,
                                                                                checksum: Digest {
                                                                                    w0,
                                                                                    w1,
                                                                                    w2,
                                                                                    w3,
                                                                                },
                                                                            },
                                                                            p,
                                                                        ),
                                                                    ),
                                                                },
                                                            },
                                                        },
                                                    },
                                                },
                                            },
                                        },
                                    },
                                },
                            },
                        },
                    },
                },
            },
        },
    }
}

/// What parsing record lines to the end of the bytes yields, accumulating the
/// records and the running total exactly as the builder does.
pub open spec fn spec_parse_records(
    bytes: Seq<u8>,
    pos: int,
    files: Seq<FileRecordV>,
    total: u64,
) -> Option<(Seq<FileRecordV>, u64)>
    decreases (if pos <= bytes.len() {
        bytes.len() - pos
    } else {
        0
    }),
{
    if pos == bytes.len() {
        Some((files, total))
    } else {
        match spec_parse_record(bytes, pos) {
            None => None,
            Some((rec, p)) => if p <= pos || p > bytes.len() {
                None
            } else if total + rec.size_bytes > u64::MAX {
                None
            } else {
                spec_parse_records(bytes, p, files.push(rec), (total + rec.size_bytes) as u64)
            },
        }
    }
}

/// What the whole parse yields: the snapshot the bytes spell out, or nothing
/// where they are not a manifest at all.
pub open spec fn spec_parse(bytes: Seq<u8>) -> Option<SnapshotV> {
    if bytes.len() >= 13 && bytes.subrange(0, 12) == magic_bytes() && bytes[12] == NEWLINE {
        match spec_eat_i64(bytes, 13) {
            None => None,
            Some((created_at, p)) => if created_at < 0 {
                None
            } else {
                match spec_eat(bytes, p, SPACE) {
                    None => None,
                    Some(p) => match spec_eat_u64(bytes, p, 0, false) {
                        None => None,
                        Some((sequence, p)) => match spec_eat(bytes, p, NEWLINE) {
                            None => None,
                            Some(p) => match spec_parse_records(bytes, p, Seq::empty(), 0) {
                                None => None,
                                Some((files, total_size_bytes)) => Some(
                                    SnapshotV {
                                        name: spec_set_name(created_at as u64, sequence),
                                        created_at,
                                        sequence,
                                        files,
                                        total_size_bytes,
                                    },
                                ),
                            },
                        },
                    },
                }
            },
        }
    } else {
        None
    }
}

/// A cursor over the manifest bytes, each reader proved equal to its spec.
struct Cursor<'a> {
    bytes: &'a Vec<u8>,
    pos: usize,
}

impl<'a> Cursor<'a> {
    spec fn wf(self) -> bool {
        self.pos <= self.bytes@.len()
    }

    /// Consume one expected byte.
    fn eat(&mut self, b: u8) -> (ok: bool)
        requires
            old(self).wf(),
        ensures
            final(self).wf(),
            final(self).bytes == old(self).bytes,
            match spec_eat(old(self).bytes@, old(self).pos as int, b) {
                Some(p) => ok && final(self).pos == p,
                None => !ok && final(self).pos == old(self).pos,
            },
    {
        if self.pos < self.bytes.len() && self.bytes[self.pos] == b {
            self.pos = self.pos + 1;
            true
        } else {
            false
        }
    }

    /// Consume a run of decimal digits as a number.
    fn eat_u64(&mut self) -> (r: Option<u64>)
        requires
            old(self).wf(),
        ensures
            final(self).wf(),
            final(self).bytes == old(self).bytes,
            match spec_eat_u64(old(self).bytes@, old(self).pos as int, 0, false) {
                Some((v, p)) => r == Some(v) && final(self).pos == p,
                None => r is None,
            },
    {
        let ghost bs = self.bytes@;
        let mut n: u64 = 0;
        let mut any: bool = false;
        while self.pos < self.bytes.len() && 48 <= self.bytes[self.pos]
            && self.bytes[self.pos] <= 57
            invariant
                self.wf(),
                self.bytes == old(self).bytes,
                bs == self.bytes@,
                spec_eat_u64(bs, old(self).pos as int, 0, false) == spec_eat_u64(
                    bs,
                    self.pos as int,
                    n,
                    any,
                ),
            decreases self.bytes@.len() - self.pos,
        {
            let d = (self.bytes[self.pos] - 48) as u64;
            n = match n.checked_mul(10) {
                Some(m) => match m.checked_add(d) {
                    Some(s) => s,
                    None => {
                        return None;
                    },
                },
                None => {
                    return None;
                },
            };
            any = true;
            self.pos = self.pos + 1;
        }
        if any {
            Some(n)
        } else {
            None
        }
    }

    /// Consume a possibly signed number into an `i64`.
    fn eat_i64(&mut self) -> (r: Option<i64>)
        requires
            old(self).wf(),
        ensures
            final(self).wf(),
            final(self).bytes == old(self).bytes,
            match spec_eat_i64(old(self).bytes@, old(self).pos as int) {
                Some((v, p)) => r == Some(v) && final(self).pos == p,
                None => r is None,
            },
    {
        let neg = if self.pos < self.bytes.len() && self.bytes[self.pos] == DASH {
            self.pos = self.pos + 1;
            true
        } else {
            false
        };
        let mag = match self.eat_u64() {
            Some(m) => m,
            None => {
                return None;
            },
        };
        if neg {
            if mag == 9223372036854775808 {
                Some(i64::MIN)
            } else if mag < 9223372036854775808 {
                Some(-(mag as i64))
            } else {
                None
            }
        } else {
            if mag <= i64::MAX as u64 {
                Some(mag as i64)
            } else {
                None
            }
        }
    }

    /// Consume exactly `n` raw bytes.
    fn eat_exact(&mut self, n: u64) -> (r: Option<Vec<u8>>)
        requires
            old(self).wf(),
        ensures
            final(self).wf(),
            final(self).bytes == old(self).bytes,
            match spec_eat_exact(old(self).bytes@, old(self).pos as int, n) {
                Some((s, p)) => r matches Some(v) && v@ == s && final(self).pos == p,
                None => r is None,
            },
    {
        if n > (self.bytes.len() - self.pos) as u64 {
            return None;
        }
        let count = n as usize;
        let ghost start = self.pos as int;
        proof {
            assert(count == n);
            assert(start + count <= self.bytes@.len());
        }
        let mut out: Vec<u8> = Vec::new();
        let mut k: usize = 0;
        while k < count
            invariant
                k <= count,
                self.bytes == old(self).bytes,
                0 <= start,
                self.pos as int == start + k,
                start + count <= self.bytes@.len(),
                self.bytes@.len() <= usize::MAX,
                out@ == self.bytes@.subrange(start, start + k),
            decreases count - k,
        {
            out.push(self.bytes[self.pos]);
            self.pos = self.pos + 1;
            k = k + 1;
            proof {
                assert(out@ =~= self.bytes@.subrange(start, start + k));
            }
        }
        Some(out)
    }

    fn at_end(&self) -> (r: bool)
        ensures
            r == (self.pos == self.bytes@.len()),
    {
        self.pos == self.bytes.len()
    }
}

/// Parse a manifest.  The parse succeeds exactly when the bytes spell out a
/// snapshot (`spec_parse`) and are its canonical encoding — the parse
/// re-encodes its candidate and compares — so nothing malformed or truncated
/// is ever accepted, and the returned snapshot is well formed, carries its
/// canonical name, and encodes back to exactly these bytes.  A directory
/// whose manifest is refused here was never completed and must be treated as
/// unknown: excluded from dedup and eviction accounting, left untouched on
/// disk.
pub fn manifest_parse(bytes: &Vec<u8>) -> (r: Result<Snapshot, BackupError>)
    ensures
        r matches Err(e) ==> e == BackupError::IncompleteSnapshot,
        r is Ok <==> (spec_parse(bytes@) matches Some(sv) && bytes@ == spec_manifest(sv)),
        r matches Ok(s) ==> {
            &&& spec_parse(bytes@) == Some(s@)
            &&& s.wf()
            &&& bytes@ == spec_manifest(s@)
            &&& s@.name == spec_set_name(s@.created_at as u64, s@.sequence)
            &&& s@.created_at >= 0
        },
{
    let candidate = match parse_candidate(bytes) {
        Some(c) => c,
        None => {
            return Err(BackupError::IncompleteSnapshot);
        },
    };
    let reencoded = manifest_encode(&candidate);
    if file_contents_matches(&reencoded, bytes) {
        Ok(candidate)
    } else {
        Err(BackupError::IncompleteSnapshot)
    }
}

/// The byte of the magic line at one position.
fn magic_byte_at(k: usize) -> (b: u8)
    requires
        k < 12,
    ensures
        b == magic_bytes()[k as int],
{
    if k == 0 {
        100
    } else if k == 1 {
        104
    } else if k == 2 {
        98
    } else if k == 3 {
        109
    } else if k == 4 {
        97
    } else if k == 5 {
        110
    } else if k == 6 {
        105
    } else if k == 7 {
        102
    } else if k == 8 {
        101
    } else if k == 9 {
        115
    } else if k == 10 {
        116
    } else {
        49
    }
}

/// The first pass: cut the bytes into stamp and record fields, exactly as
/// `spec_parse` says; `manifest_parse` holds the result to the canonical
/// encoding afterwards.
fn parse_candidate(bytes: &Vec<u8>) -> (r: Option<Snapshot>)
    ensures
        match r {
            Some(s) => spec_parse(bytes@) == Some(s@) && s.wf() && s@.name == spec_set_name(
                s@.created_at as u64,
                s@.sequence,
            ) && s@.created_at >= 0,
            None => spec_parse(bytes@) is None,
        },
{
    let mut cur = Cursor { bytes, pos: 0 };
    let mut k: usize = 0;
    while k < 12
        invariant
            k <= 12,
            cur.wf(),
            cur.bytes == bytes,
            cur.pos == k,
            k <= bytes@.len(),
            forall|j: int| 0 <= j < k ==> bytes@[j] == magic_bytes()[j],
        decreases 12 - k,
    {
        let expected = magic_byte_at(k);
        if !cur.eat(expected) {
            proof {
                if bytes@.len() >= 13 && bytes@.subrange(0, 12) == magic_bytes() {
                    assert(bytes@.subrange(0, 12)[k as int] == bytes@[k as int]);
                }
            }
            return None;
        }
        k = k + 1;
    }
    if !cur.eat(NEWLINE) {
        proof {
            if bytes@.len() >= 13 {
                assert(bytes@[12] != NEWLINE);
            }
        }
        return None;
    }
    proof {
        assert(bytes@.len() >= 13);
        assert(bytes@.subrange(0, 12) =~= magic_bytes());
        assert(bytes@[12] == NEWLINE);
    }
    let created_at = match cur.eat_i64() {
        Some(v) => v,
        None => {
            return None;
        },
    };
    if created_at < 0 {
        return None;
    }
    if !cur.eat(SPACE) {
        return None;
    }
    let sequence = match cur.eat_u64() {
        Some(v) => v,
        None => {
            return None;
        },
    };
    if !cur.eat(NEWLINE) {
        return None;
    }
    let ghost body_start = cur.pos as int;
    proof {
        assert(spec_parse(bytes@) == (match spec_parse_records(bytes@, body_start, Seq::empty(), 0) {
            None => None::<SnapshotV>,
            Some((files, total)) => Some(
                SnapshotV {
                    name: spec_set_name(created_at as u64, sequence),
                    created_at,
                    sequence,
                    files,
                    total_size_bytes: total,
                },
            ),
        }));
    }
    let name = set_name(created_at as u64, sequence);
    let mut snap = Snapshot::new(name, created_at, sequence);
    while !cur.at_end()
        invariant
            cur.wf(),
            cur.bytes == bytes,
            snap.wf(),
            snap@.name == spec_set_name(snap@.created_at as u64, snap@.sequence),
            snap@.created_at == created_at,
            snap@.sequence == sequence,
            spec_parse_records(bytes@, body_start, Seq::empty(), 0) == spec_parse_records(
                bytes@,
                cur.pos as int,
                snap@.files,
                snap@.total_size_bytes,
            ),
            spec_parse(bytes@) == (match spec_parse_records(bytes@, body_start, Seq::empty(), 0) {
                None => None::<SnapshotV>,
                Some((files, total)) => Some(
                    SnapshotV {
                        name: spec_set_name(created_at as u64, sequence),
                        created_at,
                        sequence,
                        files,
                        total_size_bytes: total,
                    },
                ),
            }),
        decreases cur.bytes@.len() - cur.pos,
    {
        let pos0: usize = cur.pos;
        let size_bytes = match cur.eat_u64() {
            Some(v) => v,
            None => {
                return None;
            },
        };
        if !cur.eat(SPACE) {
            return None;
        }
        let modified_at = match cur.eat_i64() {
            Some(v) => v,
            None => {
                return None;
            },
        };
        if !cur.eat(SPACE) {
            return None;
        }
        let w0 = match cur.eat_u64() {
            Some(v) => v,
            None => {
                return None;
            },
        };
        if !cur.eat(SPACE) {
            return None;
        }
        let w1 = match cur.eat_u64() {
            Some(v) => v,
            None => {
                return None;
            },
        };
        if !cur.eat(SPACE) {
            return None;
        }
        let w2 = match cur.eat_u64() {
            Some(v) => v,
            None => {
                return None;
            },
        };
        if !cur.eat(SPACE) {
            return None;
        }
        let w3 = match cur.eat_u64() {
            Some(v) => v,
            None => {
                return None;
            },
        };
        if !cur.eat(SPACE) {
            return None;
        }
        let plen = match cur.eat_u64() {
            Some(v) => v,
            None => {
                return None;
            },
        };
        if !cur.eat(SPACE) {
            return None;
        }
        let relative_path = match cur.eat_exact(plen) {
            Some(p) => p,
            None => {
                return None;
            },
        };
        if !cur.eat(NEWLINE) {
            return None;
        }
        let rec = FileRecord {
            relative_path,
            size_bytes,
            modified_at,
            checksum: Digest { w0, w1, w2, w3 },
        };
        proof {
            assert(spec_parse_record(bytes@, pos0 as int) == Some((rec@, cur.pos as int)));
        }
        let ghost files_pre = snap@.files;
        let ghost total_pre = snap@.total_size_bytes;
        let end_pos: usize = cur.pos;
        if !snap.try_push_record(rec) {
            proof {
                assert(spec_parse_records(bytes@, pos0 as int, files_pre, total_pre) is None);
            }
            return None;
        }
        if end_pos <= pos0 {
            proof {
                assert(spec_parse_records(bytes@, pos0 as int, files_pre, total_pre) is None);
            }
            return None;
        }
        proof {
            assert(spec_parse_records(bytes@, pos0 as int, files_pre, total_pre)
                == spec_parse_records(bytes@, end_pos as int, snap@.files, snap@.total_size_bytes));
        }
    }
    proof {
        assert(spec_parse_records(bytes@, cur.pos as int, snap@.files, snap@.total_size_bytes)
            == Some((snap@.files, snap@.total_size_bytes)));
        assert(spec_parse(bytes@) == Some(snap@));
    }
    Some(snap)
}

} // verus!
