//! Snapshot naming: a sortable directory name derived from the capture time,
//! `dhb-set-YYYYMMDD-HHMMSS`, with a disambiguating numeric suffix when two
//! snapshots are requested within the same clock second.  The name is a
//! function of the capture time and the suffix alone; the capture time comes
//! from the system clock, and whatever the clock says, the allocated stamp is
//! strictly after every snapshot already in the catalog, so chronological and
//! insertion order coincide for any backup root.

use vstd::prelude::*;

use crate::catalog::{chrono_before, Catalog, Snapshot};

verus! {

/// The dash that separates the fields of a snapshot name.
pub const DASH: u8 = 45;

/// The bytes of the fixed name prefix, `dhb-set-`.
pub open spec fn name_prefix() -> Seq<u8> {
    seq![100u8, 104u8, 98u8, 45u8, 115u8, 101u8, 116u8, 45u8]
}

/// The byte of one decimal digit.
pub open spec fn digit_byte(d: int) -> u8 {
    (48 + d) as u8
}

/// The decimal digits of `n`, most significant first, zero-padded on the left
/// to at least `width` digits.
pub open spec fn dec_digits(n: nat, width: nat) -> Seq<u8>
    decreases n, width,
{
    if n < 10 && width <= 1 {
        seq![digit_byte(n as int)]
    } else {
        dec_digits(n / 10, if width == 0 {
            0
        } else {
            (width - 1) as nat
        }).push(digit_byte((n % 10) as int))
    }
}

/// Append the decimal digits of `n`, zero-padded to at least `width` digits.
pub fn push_decimal(out: &mut Vec<u8>, n: u64, width: u64)
    ensures
        final(out)@ == old(out)@ + dec_digits(n as nat, width as nat),
    decreases n, width,
{
    let d: u8 = 48 + (n % 10) as u8;
    if n < 10 && width <= 1 {
        out.push(d);
        proof {
            assert(final(out)@ =~= old(out)@ + dec_digits(n as nat, width as nat));
        }
    } else {
        push_decimal(out, n / 10, if width == 0 {
            0
        } else {
            width - 1
        });
        out.push(d);
        proof {
            assert(final(out)@ =~= old(out)@ + dec_digits(n as nat, width as nat));
        }
    }
}

/// A capture time split into its calendar parts, all in UTC.
#[derive(Clone, Copy, Debug, PartialEq, Eq, Structural)]
pub struct TimeParts {
    pub year: u64,
    pub month: u64,
    pub day: u64,
    pub hour: u64,
    pub minute: u64,
    pub second: u64,
}

/// The calendar parts of a count of seconds since the Unix epoch, by the
/// standard civil-from-days conversion over the 400-year Gregorian era.  The
/// interior guards can only fall to their harmless branch on inputs the
/// conversion never produces; they make every step total.
pub open spec fn spec_time_parts(secs: u64) -> TimeParts {
    let days = secs / 86400;
    let sod = secs % 86400;
    let z = days + 719468;
    let era = z / 146097;
    let doe = z % 146097;
    let yoe = (doe - doe / 1460 + doe / 36524 - doe / 146096) / 365;
    let year_start = 365 * yoe + yoe / 4 - yoe / 100;
    let doy = if year_start <= doe {
        doe - year_start
    } else {
        0
    };
    let mp = (5 * doy + 2) / 153;
    let month_start = (153 * mp + 2) / 5;
    let d = if doy >= month_start {
        doy - month_start + 1
    } else {
        1
    };
    let m = if mp < 10 {
        mp + 3
    } else {
        mp - 9
    };
    let y = yoe + era * 400 + if m <= 2 {
        1int
    } else {
        0int
    };
    TimeParts {
        year: y as u64,
        month: m as u64,
        day: d as u64,
        hour: (sod / 3600) as u64,
        minute: ((sod % 3600) / 60) as u64,
        second: (sod % 60) as u64,
    }
}

/// See `spec_time_parts`.
pub fn time_parts(secs: u64) -> (r: TimeParts)
    ensures
        r == spec_time_parts(secs),
{
    let days: u64 = secs / 86400;
    let sod: u64 = secs % 86400;
    proof {
        assert(days <= 0x1_0000_0000_0000) by (nonlinear_arith)
            requires days == secs as int / 86400, secs <= u64::MAX;
    }
    let z: u64 = days + 719468;
    let era: u64 = z / 146097;
    let doe: u64 = z % 146097;
    proof {
        assert(doe / 1460 <= doe && doe / 36524 <= doe && doe / 146096 <= doe / 36524)
            by (nonlinear_arith);
        assert(z / 146097 <= z) by (nonlinear_arith);
    }
    let yoe: u64 = (doe - doe / 1460 + doe / 36524 - doe / 146096) / 365;
    proof {
        assert(yoe <= 146097 * 3) by (nonlinear_arith)
            requires yoe == (doe - doe / 1460 + doe / 36524 - doe / 146096) as int / 365,
                doe < 146097;
    }
    let year_start: u64 = 365 * yoe + yoe / 4 - yoe / 100;
    let doy: u64 = if year_start <= doe {
        doe - year_start
    } else {
        0
    };
    let mp: u64 = (5 * doy + 2) / 153;
    let month_start: u64 = (153 * mp + 2) / 5;
    let d: u64 = if doy >= month_start {
        doy - month_start + 1
    } else {
        1
    };
    let m: u64 = if mp < 10 {
        mp + 3
    } else {
        mp - 9
    };
    let y: u64 = yoe + era * 400 + if m <= 2 {
        1
    } else {
        0
    };
    TimeParts {
        year: y,
        month: m,
        day: d,
        hour: sod / 3600,
        minute: (sod % 3600) / 60,
        second: sod % 60,
    }
}

/// The canonical snapshot name for a capture time and a disambiguating
/// suffix: `dhb-set-YYYYMMDD-HHMMSS`, then a dash and the suffix zero-padded
/// to twenty digits when the suffix is not zero, so that suffixed names of
/// one second sort lexically in suffix order.
pub open spec fn spec_set_name(secs: u64, sequence: u64) -> Seq<u8> {
    let p = spec_time_parts(secs);
    name_prefix() + dec_digits(p.year as nat, 4)
        + dec_digits(p.month as nat, 2) + dec_digits(p.day as nat, 2) + seq![DASH] + dec_digits(
        p.hour as nat,
        2,
    ) + dec_digits(p.minute as nat, 2) + dec_digits(p.second as nat, 2) + if sequence == 0 {
        Seq::<u8>::empty()
    } else {
        seq![DASH] + dec_digits(sequence as nat, 20)
    }
}

/// See `spec_set_name`.
pub fn set_name(secs: u64, sequence: u64) -> (r: Vec<u8>)
    ensures
        r@ == spec_set_name(secs, sequence),
{
    let p = time_parts(secs);
    let mut out: Vec<u8> = Vec::new();
    out.push(100);
    out.push(104);
    out.push(98);
    out.push(DASH);
    out.push(115);
    out.push(101);
    out.push(116);
    out.push(DASH);
    proof {
        assert(out@ =~= name_prefix());
    }
    push_decimal(&mut out, p.year, 4);
    push_decimal(&mut out, p.month, 2);
    push_decimal(&mut out, p.day, 2);
    out.push(DASH);
    push_decimal(&mut out, p.hour, 2);
    push_decimal(&mut out, p.minute, 2);
    push_decimal(&mut out, p.second, 2);
    if sequence != 0 {
        out.push(DASH);
        push_decimal(&mut out, sequence, 20);
    }
    proof {
        assert(out@ =~= spec_set_name(secs, sequence));
    }
    out
}

/// A decimal rendering is never empty, and pads up to the asked width.
pub proof fn lemma_dec_digits_nonempty(n: nat, w: nat)
    ensures
        dec_digits(n, w).len() >= 1,
    decreases n, w,
{
    if !(n < 10 && w <= 1) {
        lemma_dec_digits_nonempty(n / 10, if w == 0 {
            0
        } else {
            (w - 1) as nat
        });
    }
}

/// At equal width, equal digit strings come only from equal numbers.
pub proof fn lemma_dec_digits_injective(n1: nat, n2: nat, w: nat)
    requires
        dec_digits(n1, w) == dec_digits(n2, w),
    ensures
        n1 == n2,
    decreases n1 + n2 + w,
{
    let w2 = if w == 0 {
        0nat
    } else {
        (w - 1) as nat
    };
    lemma_dec_digits_nonempty(n1 / 10, w2);
    lemma_dec_digits_nonempty(n2 / 10, w2);
    if n1 < 10 && w <= 1 {
        assert(dec_digits(n2, w).len() == 1);
        assert(n2 < 10);
        assert(dec_digits(n1, w)[0] == digit_byte(n1 as int));
        assert(dec_digits(n2, w)[0] == digit_byte(n2 as int));
        assert(digit_byte(n1 as int) == digit_byte(n2 as int));
    } else {
        assert(dec_digits(n1, w).len() >= 2);
        assert(!(n2 < 10 && w <= 1));
        assert(dec_digits(n1, w).last() == dec_digits(n2, w).last());
        assert(dec_digits(n1, w).last() == digit_byte((n1 % 10) as int));
        assert(dec_digits(n2, w).last() == digit_byte((n2 % 10) as int));
        assert(digit_byte((n1 % 10) as int) == digit_byte((n2 % 10) as int));
        assert(n1 % 10 == n2 % 10);
        assert(dec_digits(n1, w).drop_last() =~= dec_digits(n1 / 10, w2));
        assert(dec_digits(n2, w).drop_last() =~= dec_digits(n2 / 10, w2));
        lemma_dec_digits_injective(n1 / 10, n2 / 10, w2);
    }
}

/// Ten to the `w`.
pub open spec fn pow10(w: nat) -> nat
    decreases w,
{
    if w == 0 {
        1
    } else {
        10 * pow10((w - 1) as nat)
    }
}

/// Powers of ten are positive.
pub proof fn lemma_pow10_pos(w: nat)
    ensures
        pow10(w) >= 1,
    decreases w,
{
    if w > 0 {
        lemma_pow10_pos((w - 1) as nat);
    }
}

/// Every 64-bit value has at most twenty decimal digits.
pub proof fn lemma_u64_fits_twenty_digits(n: u64)
    ensures
        (n as nat) < pow10(20),
{
    assert(pow10(20) == 100000000000000000000) by {
        reveal_with_fuel(pow10, 21);
    }
}

/// A value below ten to the `w` renders in exactly `w` digits.
pub proof fn lemma_dec_digits_width(n: nat, w: nat)
    requires
        w >= 1,
        n < pow10(w),
    ensures
        dec_digits(n, w).len() == w,
    decreases w,
{
    if w == 1 {
        assert(pow10(1) == 10) by {
            reveal_with_fuel(pow10, 2);
        }
    } else {
        let w1 = (w - 1) as nat;
        lemma_pow10_pos(w1);
        assert(n / 10 < pow10(w1)) by (nonlinear_arith)
            requires
                n < 10 * pow10(w1),
                pow10(w1) >= 1,
        ;
        lemma_dec_digits_width(n / 10, w1);
    }
}

/// Equal-width renderings order as their values: the digits of the smaller
/// value first differ from the larger's at a smaller digit.
pub proof fn lemma_dec_digits_lex(n1: nat, n2: nat, w: nat)
    requires
        w >= 1,
        n1 < n2,
        n2 < pow10(w),
    ensures
        exists|k: int|
            0 <= k < w && #[trigger] dec_digits(n1, w).take(k) == dec_digits(n2, w).take(k)
                && dec_digits(n1, w)[k] < dec_digits(n2, w)[k],
    decreases w,
{
    lemma_dec_digits_width(n1, w);
    lemma_dec_digits_width(n2, w);
    let a = dec_digits(n1, w);
    let b = dec_digits(n2, w);
    if w == 1 {
        assert(a.take(0) =~= b.take(0));
        assert(a[0] == digit_byte(n1 as int) && b[0] == digit_byte(n2 as int));
        assert(a.take(0int) == b.take(0int) && a[0int] < b[0int]);
    } else {
        let w1 = (w - 1) as nat;
        lemma_pow10_pos(w1);
        assert(n2 / 10 < pow10(w1)) by (nonlinear_arith)
            requires
                n2 < 10 * pow10(w1),
                pow10(w1) >= 1,
        ;
        assert(n1 / 10 <= n2 / 10) by (nonlinear_arith)
            requires
                n1 < n2,
        ;
        let pa = dec_digits(n1 / 10, w1);
        let pb = dec_digits(n2 / 10, w1);
        lemma_dec_digits_width(n1 / 10, w1);
        assert(a == pa.push(digit_byte((n1 % 10) as int)));
        assert(b == pb.push(digit_byte((n2 % 10) as int)));
        if n1 / 10 == n2 / 10 {
            assert(n1 % 10 < n2 % 10) by (nonlinear_arith)
                requires
                    n1 < n2,
                    n1 / 10 == n2 / 10,
            ;
            let k = w - 1;
            assert(a.take(k) =~= pa);
            assert(b.take(k) =~= pb);
            assert(a.take(k as int) == b.take(k as int) && a[k as int] < b[k as int]);
        } else {
            lemma_dec_digits_lex(n1 / 10, n2 / 10, w1);
            let k = choose|k: int|
                0 <= k < w1 && #[trigger] pa.take(k) == pb.take(k) && pa[k] < pb[k];
            assert(a.take(k) =~= pa.take(k));
            assert(b.take(k) =~= pb.take(k));
            assert(a[k] == pa[k] && b[k] == pb[k]);
            assert(a.take(k) == b.take(k) && a[k] < b[k]);
        }
    }
}

/// Lexicographic order on byte strings: a strict prefix sorts first, else the
/// first differing byte decides.
pub open spec fn name_lex_before(a: Seq<u8>, b: Seq<u8>) -> bool {
    (a.len() < b.len() && a == b.take(a.len() as int)) || exists|k: int|
        0 <= k < a.len() && k < b.len() && #[trigger] a.take(k) == b.take(k) && a[k] < b[k]
}

/// Within one clock second, names sort lexically in suffix order, so lexical
/// and chronological order coincide for snapshots of one second.  (Across
/// seconds the timestamp fields decide; their order follows the calendar
/// conversion.)
pub proof fn lemma_same_second_names_lexical(secs: u64, q1: u64, q2: u64)
    requires
        q1 < q2,
    ensures
        name_lex_before(spec_set_name(secs, q1), spec_set_name(secs, q2)),
{
    let head = spec_set_name(secs, 0);
    let a = spec_set_name(secs, q1);
    let b = spec_set_name(secs, q2);
    lemma_u64_fits_twenty_digits(q1);
    lemma_u64_fits_twenty_digits(q2);
    let d2 = dec_digits(q2 as nat, 20);
    lemma_dec_digits_width(q2 as nat, 20);
    if q1 == 0 {
        assert(a.len() < b.len());
        assert(a =~= b.take(a.len() as int));
    } else {
        let d1 = dec_digits(q1 as nat, 20);
        lemma_dec_digits_width(q1 as nat, 20);
        lemma_dec_digits_lex(q1 as nat, q2 as nat, 20);
        let k = choose|k: int|
            0 <= k < 20 && #[trigger] d1.take(k) == d2.take(k) && d1[k] < d2[k];
        let kk = head.len() as int + 1 + k;
        assert(a.take(kk) =~= b.take(kk)) by {
            assert forall|x: int| 0 <= x < kk implies a[x] == b[x] by {
                if x < head.len() + 1 {
                } else {
                    assert(a[x] == d1[x - head.len() - 1]);
                    assert(b[x] == d2[x - head.len() - 1]);
                    assert(d1.take(k)[x - head.len() - 1] == d2.take(k)[x - head.len() - 1]);
                }
            }
        }
        assert(a[kk] == d1[k] && b[kk] == d2[k]);
        assert(0 <= kk < a.len() && kk < b.len() && a.take(kk) == b.take(kk) && a[kk] < b[kk]);
    }
}

/// Two snapshots requested within the same clock second still get distinct
/// names: the disambiguating suffix tells them apart.
pub proof fn lemma_same_second_names_distinct(secs: u64, q1: u64, q2: u64)
    requires
        q1 != q2,
    ensures
        spec_set_name(secs, q1) != spec_set_name(secs, q2),
{
    let head = spec_set_name(secs, 0);
    let a = spec_set_name(secs, q1);
    let b = spec_set_name(secs, q2);
    if q1 == 0 || q2 == 0 {
        let q = if q1 == 0 {
            q2
        } else {
            q1
        };
        lemma_dec_digits_nonempty(q as nat, 20);
        assert(spec_set_name(secs, q).len() > head.len());
    } else {
        lemma_dec_digits_nonempty(q1 as nat, 20);
        lemma_dec_digits_nonempty(q2 as nat, 20);
        if a == b {
            let d1 = dec_digits(q1 as nat, 20);
            let d2 = dec_digits(q2 as nat, 20);
            assert(a =~= head + seq![DASH] + d1);
            assert(b =~= head + seq![DASH] + d2);
            assert(d1 =~= a.subrange(head.len() as int + 1, a.len() as int));
            assert(d2 =~= b.subrange(head.len() as int + 1, b.len() as int));
            assert(d1 == d2);
            lemma_dec_digits_injective(q1 as nat, q2 as nat, 20);
            assert(false);
        }
    }
}

/// Whether stamp (`t2`, `q2`) is strictly after stamp (`t1`, `q1`).
pub open spec fn stamp_lt(t1: i64, q1: u64, t2: i64, q2: u64) -> bool {
    t1 < t2 || (t1 == t2 && q1 < q2)
}

/// The clock reading folded into the nameable range: never before the epoch.
pub open spec fn clamp_now(now_secs: i64) -> i64 {
    if now_secs < 0 {
        0
    } else {
        now_secs
    }
}

/// Allocate the stamp — capture time and disambiguating suffix — of the next
/// snapshot: the clock reading if that already sorts after everything
/// recorded, else the last stamp with the suffix bumped, so that names stay
/// strictly increasing even if the clock stands still or jumps back.  `None`
/// only at the very end of the stamp space.
pub fn next_snapshot_stamp(catalog: &Catalog, now_secs: i64) -> (r: Option<(i64, u64)>)
    requires
        catalog.wf(),
    ensures
        r is None <==> (catalog@.len() > 0 && catalog@.last().created_at == i64::MAX
            && catalog@.last().sequence == u64::MAX),
        r matches Some(id) ==> {
            &&& id.0 >= 0
            &&& catalog@.len() > 0 ==> stamp_lt(
                catalog@.last().created_at,
                catalog@.last().sequence,
                id.0,
                id.1,
            )
            &&& catalog@.len() == 0 ==> id == (clamp_now(now_secs), 0u64)
            &&& catalog@.len() > 0 && clamp_now(now_secs) > catalog@.last().created_at ==> id == (
                clamp_now(now_secs),
                0u64,
            )
            &&& catalog@.len() > 0 && clamp_now(now_secs) <= catalog@.last().created_at
                && catalog@.last().sequence < u64::MAX ==> id == (
                catalog@.last().created_at,
                (catalog@.last().sequence + 1) as u64,
            )
            &&& catalog@.len() > 0 && clamp_now(now_secs) <= catalog@.last().created_at
                && catalog@.last().sequence == u64::MAX && catalog@.last().created_at < i64::MAX
                ==> id == ((catalog@.last().created_at + 1) as i64, 0u64)
        },
{
    let t: i64 = if now_secs < 0 {
        0
    } else {
        now_secs
    };
    if self_len(catalog) == 0 {
        return Some((t, 0));
    }
    let last = &catalog.snapshots[catalog.snapshots.len() - 1];
    proof {
        assert(last@ == catalog@.last());
        assert(last@.wf());
    }
    if t > last.created_at {
        Some((t, 0))
    } else if last.sequence < u64::MAX {
        Some((last.created_at, last.sequence + 1))
    } else if last.created_at < i64::MAX {
        Some((last.created_at + 1, 0))
    } else {
        None
    }
}

/// The number of snapshots in the catalog.
fn self_len(catalog: &Catalog) -> (r: usize)
    ensures
        r == catalog@.len(),
{
    catalog.snapshots.len()
}

/// Relies on chrono's `Utc::now` — the current UTC time read from the system
/// clock — and `DateTime::timestamp`, its whole seconds since the Unix epoch.
/// `Utc::now` does not return at all if the system clock reads earlier than
/// the epoch, so a value that does come back is never negative; nothing else
/// can be promised of a clock reading.
#[verifier::external_body]
fn current_epoch_seconds() -> (r: i64)
    ensures
        r >= 0,
{
    chrono::Utc::now().timestamp()
}

/// Open a fresh, empty snapshot for this run: read the clock, allocate the
/// next stamp after everything in the catalog, and name it canonically.
/// Whatever the clock said, the new snapshot sorts strictly after every
/// recorded one; `None` only at the very end of the stamp space.
pub fn fresh_snapshot(catalog: &Catalog) -> (r: Option<Snapshot>)
    requires
        catalog.wf(),
    ensures
        r is None <==> (catalog@.len() > 0 && catalog@.last().created_at == i64::MAX
            && catalog@.last().sequence == u64::MAX),
        r matches Some(s) ==> {
            &&& s.wf()
            &&& s@.files.len() == 0
            &&& s@.total_size_bytes == 0
            &&& s@.name == spec_set_name(s@.created_at as u64, s@.sequence)
            &&& catalog@.len() > 0 ==> chrono_before(catalog@.last(), s@)
        },
{
    let now = current_epoch_seconds();
    match next_snapshot_stamp(catalog, now) {
        Some((created_at, sequence)) => {
            let name = set_name(created_at as u64, sequence);
            Some(Snapshot::new(name, created_at, sequence))
        },
        None => None,
    }
}

} // verus!
