//! Memory identifiers and the clock.
use vstd::prelude::*;
use crate::text::string_of;
use std::collections::hash_map::{DefaultHasher, RandomState};
use std::hash::{BuildHasher, Hasher};
use std::time::{Duration, SystemTime, SystemTimeError, UNIX_EPOCH};

verus! {

/// Lowercase hexadecimal digit of `d < 16`.
pub open spec fn hex_digit(d: nat) -> char {
    if d < 10 {
        (('0' as u32) + d) as char
    } else {
        (('a' as u32) + (d - 10)) as char
    }
}

/// Lowercase hexadecimal without leading zeros (`format!("{:x}", n)`); `0` is `"0"`.
pub open spec fn hex(n: nat) -> Seq<char>
    decreases n,
{
    if n < 16 {
        seq![hex_digit(n)]
    } else {
        hex(n / 16).push(hex_digit(n % 16))
    }
}

/// The id made from a time in nanoseconds and a disambiguating number.
pub open spec fn spec_format_id(nanos: nat, salt: nat) -> Seq<char> {
    seq!['m'] + hex(nanos) + hex(salt)
}

fn hex_digit_exec(d: u8) -> (c: char)
    requires
        d < 16,
    ensures
        c == hex_digit(d as nat),
{
    let u: u32 = if d < 10 {
        48 + d as u32
    } else {
        97 + (d as u32 - 10)
    };
    let c = crate::text::char_from_scalar(u).unwrap();
    c
}

proof fn lemma_hex_append(n: nat, acc: Seq<char>, k: nat)
    requires
        n >= 16,
    ensures
        hex(n / 16) + seq![hex_digit(n % 16)] + acc == hex(n) + acc,
{
    assert(hex(n) == hex(n / 16).push(hex_digit(n % 16)));
    assert(hex(n / 16).push(hex_digit(n % 16)) =~= hex(n / 16) + seq![hex_digit(n % 16)]);
}

/// Appends the lowercase hexadecimal form of `n` to `out`.
fn push_hex(out: &mut Vec<char>, n: u128)
    ensures
        final(out)@ == old(out)@ + hex(n as nat),
{
    let mut rev: Vec<char> = Vec::new();
    let mut m = n;
    let ghost mut acc: Seq<char> = Seq::empty();
    while m >= 16
        invariant
            hex(n as nat) == hex(m as nat) + acc,
            rev@ == acc.reverse(),
        decreases m,
    {
        let d = (m % 16) as u8;
        let c = hex_digit_exec(d);
        rev.push(c);
        proof {
            lemma_hex_append(m as nat, acc, 0);
            let old_acc = acc;
            acc = seq![c] + acc;
            assert(hex(n as nat) == hex((m / 16) as nat) + acc) by {
                assert(hex((m / 16) as nat) + seq![c] + old_acc =~= hex((m / 16) as nat) + acc);
            }
            assert(rev@ =~= acc.reverse());
        }
        m = m / 16;
    }
    let c = hex_digit_exec(m as u8);
    rev.push(c);
    proof {
        assert(hex(m as nat) == seq![c]);
        acc = seq![c] + acc;
        assert(rev@ =~= acc.reverse());
        assert(hex(n as nat) =~= acc);
    }
    let mut i = rev.len();
    let ghost start = out@;
    while i > 0
        invariant
            i <= rev.len(),
            rev@ == acc.reverse(),
            hex(n as nat) == acc,
            out@ == start + acc.subrange(0, (rev.len() - i) as int),
        decreases i,
    {
        i -= 1;
        out.push(rev[i]);
        proof {
            assert(acc[(rev.len() - i - 1) as int] == rev@[i as int]);
            assert(start + acc.subrange(0, (rev.len() - i) as int) =~= (start + acc.subrange(
                0,
                (rev.len() - i - 1) as int,
            )).push(rev@[i as int]));
        }
    }
    proof {
        assert(acc.subrange(0, rev.len() as int) =~= acc);
    }
}

} // verus!

verus! {

/// A reading of the system clock.
#[verifier::external_type_specification]
#[verifier::external_body]
pub struct ExSystemTime(SystemTime);

/// The error of a clock reading before the Unix epoch.
#[verifier::external_type_specification]
#[verifier::external_body]
pub struct ExSystemTimeError(SystemTimeError);

/// Reads the system clock (`SystemTime::now`); nothing is promised of the reading.
#[verifier::external_body]
fn system_now() -> SystemTime {
    SystemTime::now()
}

/// The time from the Unix epoch to `t` (`SystemTime::duration_since(UNIX_EPOCH)`), an
/// error when `t` is earlier; nothing more is promised.
#[verifier::external_body]
fn since_epoch(t: &SystemTime) -> Result<Duration, SystemTimeError> {
    t.duration_since(UNIX_EPOCH)
}

/// The whole seconds of a span (`Duration::as_secs`).
#[verifier::external_body]
fn whole_secs(d: &Duration) -> u64 {
    d.as_secs()
}

/// The whole nanoseconds of a span (`Duration::as_nanos`).
#[verifier::external_body]
fn whole_nanos(d: &Duration) -> u128 {
    d.as_nanos()
}

/// Fresh random hashing keys (`RandomState::new`); nothing is promised of them.
#[verifier::external_body]
fn fresh_keys() -> RandomState {
    RandomState::new()
}

/// A hasher keyed by `k` (`BuildHasher::build_hasher`); nothing is promised of it.
#[verifier::external_body]
fn keyed_hasher(k: &RandomState) -> DefaultHasher {
    k.build_hasher()
}

/// Seconds since the epoch as a signed number (`as i64`, which wraps past
/// `i64::MAX`), or 0 when the clock read before the epoch.
pub open spec fn spec_secs_or_zero(reading: Option<u64>) -> i64 {
    match reading {
        Some(s) => s as i64,
        None => 0,
    }
}

/// The Unix time in seconds for a clock reading (`None` when it was before the epoch).
pub fn secs_or_zero(reading: Option<u64>) -> (r: i64)
    ensures
        r == spec_secs_or_zero(reading),
{
    match reading {
        Some(s) => s as i64,
        None => 0,
    }
}

/// Current Unix time in seconds (0 when the clock reads before the epoch): the clock's
/// whole seconds since the epoch, as [`secs_or_zero`] turns them into a time.
pub fn now_secs() -> (r: i64)
    ensures
        exists|reading: Option<u64>| r == spec_secs_or_zero(reading),
{
    let reading = match since_epoch(&system_now()) {
        Ok(d) => Some(whole_secs(&d)),
        Err(_) => None,
    };
    secs_or_zero(reading)
}

/// `"m"` followed by `nanos` and `salt` in lowercase hexadecimal.
pub fn format_id(nanos: u128, salt: u64) -> (r: String)
    ensures
        r@ == spec_format_id(nanos as nat, salt as nat),
{
    let mut out: Vec<char> = Vec::new();
    out.push('m');
    push_hex(&mut out, nanos);
    push_hex(&mut out, salt as u128);
    string_of(&out)
}

/// A new memory id: `"m"`, the clock in nanoseconds since the epoch, and a random
/// number, both in lowercase hexadecimal.
pub fn generate_id() -> (r: String)
    ensures
        exists|nanos: nat, salt: nat| r@ == spec_format_id(nanos, salt),
{
    let nanos: u128 = match since_epoch(&system_now()) {
        Ok(d) => whole_nanos(&d),
        Err(_) => 0,
    };
    let salt = keyed_hasher(&fresh_keys()).finish();
    format_id(nanos, salt)
}

} // verus!
