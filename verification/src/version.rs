//! Release tags and semantic versions.
use vstd::prelude::*;
use crate::text::{chars_of, push_char, slice_chars, string_of, trim, trim_chars};

verus! {

/// Whether a character is a leading `v` or `V` of a tag.
pub open spec fn is_v(c: char) -> bool {
    c == 'v' || c == 'V'
}

/// `t` without one leading `v`/`V`.
pub open spec fn drop_v(t: Seq<char>) -> Seq<char> {
    if t.len() > 0 && is_v(t[0]) {
        t.drop_first()
    } else {
        t
    }
}

/// What `strip_v` returns: the tag trimmed, then without one leading `v`/`V`.
pub open spec fn spec_strip_v(v: Seq<char>) -> Seq<char> {
    drop_v(trim(v))
}

/// What `normalize_tag` returns: the tag trimmed, with a leading `v` added when it has none.
pub open spec fn spec_normalize_tag(v: Seq<char>) -> Seq<char> {
    let t = trim(v);
    if t.len() > 0 && is_v(t[0]) {
        t
    } else {
        seq!['v'] + t
    }
}

/// Removes surrounding whitespace and one leading `v` or `V` (`"v0.7.2"` gives `"0.7.2"`).
pub fn strip_v(v: &str) -> (r: String)
    ensures
        r@ == spec_strip_v(v@),
{
    let cs = chars_of(v);
    let t = trim_chars(&cs);
    if t.len() > 0 && (t[0] == 'v' || t[0] == 'V') {
        let rest = slice_chars(&t, 1, t.len());
        proof {
            assert(rest@ =~= t@.drop_first());
        }
        string_of(&rest)
    } else {
        string_of(&t)
    }
}

/// Trims a tag and makes sure it starts with `v` or `V` (`"0.7.2"` gives `"v0.7.2"`).
pub fn normalize_tag(v: &str) -> (r: String)
    ensures
        r@ == spec_normalize_tag(v@),
{
    let cs = chars_of(v);
    let t = trim_chars(&cs);
    if t.len() > 0 && (t[0] == 'v' || t[0] == 'V') {
        string_of(&t)
    } else {
        let mut r = String::new();
        push_char(&mut r, 'v');
        let mut i: usize = 0;
        while i < t.len()
            invariant
                i <= t.len(),
                r@ == seq!['v'] + t@.take(i as int),
            decreases t.len() - i,
        {
            push_char(&mut r, t[i]);
            proof {
                assert((seq!['v'] + t@.take(i as int)).push(t@[i as int]) =~= seq!['v'] + t@.take(
                    i + 1,
                ));
            }
            i += 1;
        }
        proof {
            assert(t@.take(t.len() as int) =~= t@);
        }
        r
    }
}

/// Whether a character is an ASCII decimal digit.
pub open spec fn is_digit(c: char) -> bool {
    '0' <= c && c <= '9'
}

/// The value of a run of decimal digits.
pub open spec fn digits_value(s: Seq<char>) -> nat
    decreases s.len(),
{
    if s.len() == 0 {
        0
    } else {
        digits_value(s.drop_last()) * 10 + ((s.last() as u32) - ('0' as u32)) as nat
    }
}

/// What parsing a `u64` out of a version component gives: a non-empty run of digits
/// whose value fits in 64 bits.
pub open spec fn spec_parse_u64(s: Seq<char>) -> Option<u64> {
    if s.len() > 0 && (forall|i: int| 0 <= i < s.len() ==> is_digit(#[trigger] s[i]))
        && digits_value(s) <= u64::MAX {
        Some(digits_value(s) as u64)
    } else {
        None
    }
}

/// Position of the first `-` or `+` (or the length when there is none).
pub open spec fn core_end(s: Seq<char>) -> nat
    decreases s.len(),
{
    if s.len() == 0 || s[0] == '-' || s[0] == '+' {
        0
    } else {
        1 + core_end(s.drop_first())
    }
}

/// Position of the first `.` (or the length when there is none).
pub open spec fn dot_pos(s: Seq<char>) -> nat
    decreases s.len(),
{
    if s.len() == 0 || s[0] == '.' {
        0
    } else {
        1 + dot_pos(s.drop_first())
    }
}

/// The first `.`-separated piece of `s`.
pub open spec fn piece(s: Seq<char>) -> Seq<char> {
    s.take(dot_pos(s) as int)
}

/// What follows the first `.` of `s`, if there is one.
pub open spec fn after_dot(s: Seq<char>) -> Option<Seq<char>> {
    if dot_pos(s) < s.len() {
        Some(s.skip(dot_pos(s) as int + 1))
    } else {
        None
    }
}

/// The version component that follows `rest` (`"0"` when the version has no more pieces).
pub open spec fn next_piece(rest: Option<Seq<char>>) -> Seq<char> {
    match rest {
        Some(r) => piece(r),
        None => seq!['0'],
    }
}

/// The pieces that follow `rest`.
pub open spec fn next_rest(rest: Option<Seq<char>>) -> Option<Seq<char>> {
    match rest {
        Some(r) => after_dot(r),
        None => None,
    }
}

/// What `parse_semver` returns: the tag with `v` stripped, cut at the first `-` or `+`,
/// read as `major[.minor[.patch]]` with missing parts taken as 0 and further parts ignored.
pub open spec fn spec_parse_semver(tag: Seq<char>) -> Option<(u64, u64, u64)> {
    let s = spec_strip_v(tag);
    let core = s.take(core_end(s) as int);
    if core.len() == 0 {
        None
    } else {
        let r1 = after_dot(core);
        let r2 = next_rest(r1);
        match (
            spec_parse_u64(piece(core)),
            spec_parse_u64(next_piece(r1)),
            spec_parse_u64(next_piece(r2)),
        ) {
            (Some(a), Some(b), Some(c)) => Some((a, b, c)),
            _ => None,
        }
    }
}

proof fn lemma_core_end_bound(s: Seq<char>)
    ensures
        core_end(s) <= s.len(),
        core_end(s) < s.len() ==> (s[core_end(s) as int] == '-' || s[core_end(s) as int] == '+'),
        forall|i: int| 0 <= i < core_end(s) ==> s[i] != '-' && s[i] != '+',
    decreases s.len(),
{
    if !(s.len() == 0 || s[0] == '-' || s[0] == '+') {
        lemma_core_end_bound(s.drop_first());
        assert forall|i: int| 0 <= i < core_end(s) implies s[i] != '-' && s[i] != '+' by {
            if i > 0 {
                assert(s[i] == s.drop_first()[i - 1]);
            }
        }
        if core_end(s) < s.len() {
            assert(s[core_end(s) as int] == s.drop_first()[core_end(s.drop_first()) as int]);
        }
    }
}

proof fn lemma_dot_pos_bound(s: Seq<char>)
    ensures
        dot_pos(s) <= s.len(),
        dot_pos(s) < s.len() ==> s[dot_pos(s) as int] == '.',
        forall|i: int| 0 <= i < dot_pos(s) ==> s[i] != '.',
    decreases s.len(),
{
    if !(s.len() == 0 || s[0] == '.') {
        lemma_dot_pos_bound(s.drop_first());
        assert forall|i: int| 0 <= i < dot_pos(s) implies s[i] != '.' by {
            if i > 0 {
                assert(s[i] == s.drop_first()[i - 1]);
            }
        }
        if dot_pos(s) < s.len() {
            assert(s[dot_pos(s) as int] == s.drop_first()[dot_pos(s.drop_first()) as int]);
        }
    }
}

proof fn lemma_core_end_unique(s: Seq<char>, k: int)
    requires
        0 <= k <= s.len(),
        forall|i: int| 0 <= i < k ==> s[i] != '-' && s[i] != '+',
        k < s.len() ==> (s[k] == '-' || s[k] == '+'),
    ensures
        core_end(s) == k,
    decreases s.len(),
{
    if s.len() > 0 && k > 0 {
        assert(s[0] != '-' && s[0] != '+');
        assert forall|i: int| 0 <= i < k - 1 implies s.drop_first()[i] != '-'
            && s.drop_first()[i] != '+' by {
            assert(s.drop_first()[i] == s[i + 1]);
        }
        if k - 1 < s.len() - 1 {
            assert(s.drop_first()[k - 1] == s[k]);
        }
        lemma_core_end_unique(s.drop_first(), k - 1);
    }
}

proof fn lemma_dot_pos_unique(s: Seq<char>, k: int)
    requires
        0 <= k <= s.len(),
        forall|i: int| 0 <= i < k ==> s[i] != '.',
        k < s.len() ==> s[k] == '.',
    ensures
        dot_pos(s) == k,
    decreases s.len(),
{
    if s.len() > 0 && k > 0 {
        assert(s[0] != '.');
        assert forall|i: int| 0 <= i < k - 1 implies s.drop_first()[i] != '.' by {
            assert(s.drop_first()[i] == s[i + 1]);
        }
        if k - 1 < s.len() - 1 {
            assert(s.drop_first()[k - 1] == s[k]);
        }
        lemma_dot_pos_unique(s.drop_first(), k - 1);
    }
}

proof fn lemma_parse_zero()
    ensures
        spec_parse_u64(seq!['0']) == Some(0u64),
{
    let z = seq!['0'];
    assert(z.drop_last() =~= Seq::<char>::empty());
    assert(digits_value(z.drop_last()) == 0);
    assert(z.last() == '0');
    assert(digits_value(z) == 0);
    assert(forall|i: int| 0 <= i < z.len() ==> is_digit(#[trigger] z[i]));
}

/// Reads `s[lo..hi]` as a `u64` made of decimal digits only.
fn parse_digits(s: &Vec<char>, lo: usize, hi: usize) -> (r: Option<u64>)
    requires
        lo <= hi <= s.len(),
    ensures
        r == spec_parse_u64(s@.subrange(lo as int, hi as int)),
{
    let ghost full = s@.subrange(lo as int, hi as int);
    if lo == hi {
        return None;
    }
    let mut val: u64 = 0;
    let mut overflow = false;
    let ghost mut exact: nat = 0;
    let mut i = lo;
    while i < hi
        invariant
            lo <= i <= hi <= s.len(),
            full == s@.subrange(lo as int, hi as int),
            forall|k: int| lo <= k < i ==> is_digit(s@[k]),
            exact == digits_value(s@.subrange(lo as int, i as int)),
            !overflow ==> val == exact,
            overflow ==> exact > u64::MAX,
        decreases hi - i,
    {
        let c = s[i];
        if !('0' <= c && c <= '9') {
            proof {
                assert(full[i - lo] == c);
            }
            return None;
        }
        let d = (c as u32 - '0' as u32) as u64;
        proof {
            let pre = s@.subrange(lo as int, i as int);
            let nxt = s@.subrange(lo as int, i + 1);
            assert(nxt.drop_last() =~= pre);
            assert(nxt.last() == c);
            exact = exact * 10 + d as nat;
            assert(exact == digits_value(nxt));
        }
        if !overflow {
            if val > (u64::MAX - d) / 10 {
                overflow = true;
                assert(val * 10 + d > u64::MAX) by (nonlinear_arith)
                    requires
                        val > (u64::MAX - d) / 10,
                        d <= 9,
                ;
            } else {
                assert(val * 10 + d <= u64::MAX) by (nonlinear_arith)
                    requires
                        val <= (u64::MAX - d) / 10,
                        d <= 9,
                ;
                val = val * 10 + d;
            }
        }
        i += 1;
    }
    proof {
        assert(full =~= s@.subrange(lo as int, i as int));
        assert forall|k: int| 0 <= k < full.len() implies is_digit(#[trigger] full[k]) by {
            assert(full[k] == s@[lo + k]);
        }
    }
    if overflow {
        None
    } else {
        Some(val)
    }
}

/// Index of the first `.` in `s[from..]`, or `s.len()`.
fn find_dot(s: &Vec<char>, from: usize) -> (r: usize)
    requires
        from <= s.len(),
    ensures
        from <= r <= s.len(),
        r - from == dot_pos(s@.skip(from as int)),
{
    let mut i = from;
    while i < s.len() && s[i] != '.'
        invariant
            from <= i <= s.len(),
            forall|k: int| from <= k < i ==> s@[k] != '.',
        decreases s.len() - i,
    {
        i += 1;
    }
    proof {
        let t = s@.skip(from as int);
        assert forall|k: int| 0 <= k < i - from implies t[k] != '.' by {
            assert(t[k] == s@[from + k]);
        }
        if i < s.len() {
            assert(t[i - from] == s@[i as int]);
        }
        lemma_dot_pos_unique(t, i - from);
    }
    i
}

/// Parses `v0.9.1`, `0.8.0` or `v1.2.3-rc1` into `(major, minor, patch)`; missing minor or
/// patch parts count as 0 and anything from the first `-` or `+` on is ignored.
pub fn parse_semver(tag: &str) -> (r: Option<(u64, u64, u64)>)
    ensures
        r == spec_parse_semver(tag@),
{
    let stripped = strip_v(tag);
    let s = chars_of(stripped.as_str());
    let mut e: usize = 0;
    while e < s.len() && s[e] != '-' && s[e] != '+'
        invariant
            e <= s.len(),
            forall|k: int| 0 <= k < e ==> s@[k] != '-' && s@[k] != '+',
        decreases s.len() - e,
    {
        e += 1;
    }
    proof {
        lemma_core_end_unique(s@, e as int);
    }
    if e == 0 {
        return None;
    }
    let ghost core = s@.take(e as int);
    let core_v = slice_chars(&s, 0, e);
    proof {
        assert(core_v@ =~= core);
    }
    // major
    let d0 = find_dot(&core_v, 0);
    proof {
        assert(core_v@.skip(0) =~= core_v@);
    }
    let major = parse_digits(&core_v, 0, d0);
    proof {
        assert(core_v@.subrange(0, d0 as int) =~= piece(core));
    }
    let ghost r1 = after_dot(core);
    let minor: Option<u64>;
    let patch: Option<u64>;
    if d0 == core_v.len() {
        proof {
            assert(r1 is None);
            reveal_strlit("0");
        }
        minor = Some(0);
        patch = Some(0);
        proof {
            lemma_parse_zero();
        }
    } else {
        let s1 = d0 + 1;
        let d1 = find_dot(&core_v, s1);
        proof {
            let rest = core_v@.skip(s1 as int);
            assert(r1 == Some(rest));
            assert(core_v@.subrange(s1 as int, d1 as int) =~= piece(rest));
        }
        minor = parse_digits(&core_v, s1, d1);
        if d1 == core_v.len() {
            patch = Some(0);
            proof {
                let rest = core_v@.skip(s1 as int);
                assert(after_dot(rest) is None);
                lemma_parse_zero();
            }
        } else {
            let s2 = d1 + 1;
            let d2 = find_dot(&core_v, s2);
            proof {
                let rest = core_v@.skip(s1 as int);
                let rest2 = core_v@.skip(s2 as int);
                assert(rest.skip(dot_pos(rest) as int + 1) =~= rest2);
                assert(next_rest(r1) == Some(rest2));
                assert(core_v@.subrange(s2 as int, d2 as int) =~= piece(rest2));
            }
            patch = parse_digits(&core_v, s2, d2);
        }
    }
    match (major, minor, patch) {
        (Some(a), Some(b), Some(c)) => Some((a, b, c)),
        _ => None,
    }
}

} // verus!
