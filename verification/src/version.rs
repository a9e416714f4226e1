//! Comparison of dotted numeric version strings.
//!
//! A version string is split on `.`; each segment that parses as an unsigned
//! 64-bit integer contributes one component, and segments that do not parse
//! are dropped. Two versions are compared component by component from the
//! left, reading positions past the end of the shorter sequence as zero; the
//! first position where the components differ decides, and a remote version
//! is "newer" only if it is strictly greater at that position.

use vstd::prelude::*;
use vstd::string::*;

verus! {

/// A decimal digit in ASCII.
pub open spec fn is_ascii_digit(c: char) -> bool {
    48 <= c as u32 && c as u32 <= 57
}

/// The numeric value of a decimal digit.
pub open spec fn digit_value(c: char) -> int {
    c as u32 - 48
}

/// True when every character of `s` is a decimal digit.
pub open spec fn all_digits(s: Seq<char>) -> bool {
    forall|i: int| 0 <= i < s.len() ==> is_ascii_digit(#[trigger] s[i])
}

/// The value of `s` read as a decimal numeral, most significant digit first.
pub open spec fn dec_value(s: Seq<char>) -> int
    decreases s.len(),
{
    if s.len() == 0 {
        0
    } else {
        dec_value(s.drop_last()) * 10 + digit_value(s.last())
    }
}

/// `s` without a single optional leading `+` sign, as accepted by unsigned
/// integer parsing.
pub open spec fn strip_plus(s: Seq<char>) -> Seq<char> {
    if s.len() > 0 && s[0] == '+' {
        s.subrange(1, s.len() as int)
    } else {
        s
    }
}

/// True when the segment parses as a `u64`: after the optional sign it is a
/// nonempty run of digits whose value fits in 64 bits.
pub open spec fn seg_ok(s: Seq<char>) -> bool {
    let t = strip_plus(s);
    t.len() > 0 && all_digits(t) && dec_value(t) <= u64::MAX
}

/// The numeric value of a segment that parses.
pub open spec fn seg_val(s: Seq<char>) -> u64 {
    dec_value(strip_plus(s)) as u64
}

/// The segments of `s` split on `.`, empty segments included, so that even
/// the empty string has one (empty) segment.
pub open spec fn segments(s: Seq<char>) -> Seq<Seq<char>>
    decreases s.len(),
{
    if s.len() == 0 {
        seq![Seq::<char>::empty()]
    } else if s.last() == '.' {
        segments(s.drop_last()).push(Seq::<char>::empty())
    } else {
        let prev = segments(s.drop_last());
        prev.update(prev.len() - 1, prev.last().push(s.last()))
    }
}

/// The components contributed by a sequence of segments: each segment that
/// parses adds its value, in order, and the others are dropped.
pub open spec fn component_values(segs: Seq<Seq<char>>) -> Seq<u64>
    decreases segs.len(),
{
    if segs.len() == 0 {
        Seq::<u64>::empty()
    } else {
        let prev = component_values(segs.drop_last());
        if seg_ok(segs.last()) {
            prev.push(seg_val(segs.last()))
        } else {
            prev
        }
    }
}

/// The parsed components of a version string.
pub open spec fn parsed_values(s: Seq<char>) -> Seq<u64> {
    component_values(segments(s))
}

/// The component at position `i`, reading positions past the end as zero.
pub open spec fn val_at(v: Seq<u64>, i: int) -> u64 {
    if 0 <= i < v.len() {
        v[i]
    } else {
        0
    }
}

/// True when `r` is strictly greater than `l` from position `i` on, under
/// left-to-right comparison with missing components read as zero.
pub open spec fn newer_from(r: Seq<u64>, l: Seq<u64>, i: int) -> bool
    decreases r.len() + l.len() - i,
{
    if i >= r.len() && i >= l.len() {
        false
    } else if val_at(r, i) > val_at(l, i) {
        true
    } else if val_at(r, i) < val_at(l, i) {
        false
    } else {
        newer_from(r, l, i + 1)
    }
}

/// True when the component sequence `r` denotes a strictly greater version
/// than `l`.
pub open spec fn seq_newer(r: Seq<u64>, l: Seq<u64>) -> bool {
    newer_from(r, l, 0)
}

/// True when the version string `remote` denotes a strictly greater version
/// than `local`.
pub open spec fn spec_is_newer(remote: Seq<char>, local: Seq<char>) -> bool {
    seq_newer(parsed_values(remote), parsed_values(local))
}

proof fn lemma_segments_nonempty(s: Seq<char>)
    ensures
        segments(s).len() >= 1,
    decreases s.len(),
{
    if s.len() > 0 {
        lemma_segments_nonempty(s.drop_last());
    }
}

proof fn lemma_dec_value_nonneg(s: Seq<char>)
    requires
        all_digits(s),
    ensures
        dec_value(s) >= 0,
    decreases s.len(),
{
    if s.len() > 0 {
        assert(forall|i: int| 0 <= i < s.drop_last().len() ==> is_ascii_digit(
            #[trigger] s.drop_last()[i],
        ));
        lemma_dec_value_nonneg(s.drop_last());
    }
}

proof fn lemma_dec_value_prefix(s: Seq<char>, p: int)
    requires
        0 <= p <= s.len(),
        all_digits(s),
    ensures
        dec_value(s.subrange(0, p)) <= dec_value(s),
    decreases s.len() - p,
{
    if p == s.len() {
        assert(s.subrange(0, p) =~= s);
    } else {
        assert(s.subrange(0, p + 1).drop_last() =~= s.subrange(0, p));
        assert(s.subrange(0, p + 1).last() == s[p]);
        assert(forall|i: int| 0 <= i < s.subrange(0, p).len() ==> is_ascii_digit(
            #[trigger] s.subrange(0, p)[i],
        ));
        lemma_dec_value_nonneg(s.subrange(0, p));
        lemma_dec_value_prefix(s, p + 1);
    }
}

/// Parses one segment as a `u64`, returning its value exactly when the
/// segment parses.
fn parse_segment(seg: &Vec<char>) -> (r: Option<u64>)
    ensures
        seg_ok(seg@) ==> r == Some(seg_val(seg@)),
        !seg_ok(seg@) ==> r == None::<u64>,
{
    let len: usize = seg.len();
    let start: usize = if len > 0 && seg[0] == '+' {
        1
    } else {
        0
    };
    let ghost t: Seq<char> = strip_plus(seg@);
    proof {
        assert(t =~= seg@.subrange(start as int, len as int));
    }
    if start >= len {
        return None;
    }
    let mut acc: u64 = 0;
    let mut j: usize = start;
    while j < len
        invariant
            len == seg@.len(),
            start <= j <= len,
            start < len,
            t == seg@.subrange(start as int, len as int),
            t == strip_plus(seg@),
            forall|m: int| start <= m < j ==> is_ascii_digit(#[trigger] seg@[m]),
            acc as int == dec_value(seg@.subrange(start as int, j as int)),
        decreases len - j,
    {
        let c: char = seg[j];
        let d: u32 = c as u32;
        if d < 48 || d > 57 {
            proof {
                assert(t[j - start] == seg@[j as int]);
                assert(!is_ascii_digit(t[j - start]));
                assert(!seg_ok(seg@));
            }
            return None;
        }
        let digit: u64 = (d - 48) as u64;
        proof {
            assert(seg@.subrange(start as int, j as int + 1).drop_last() =~= seg@.subrange(
                start as int,
                j as int,
            ));
            assert(seg@.subrange(start as int, j as int + 1).last() == seg@[j as int]);
            assert(dec_value(seg@.subrange(start as int, j as int + 1)) == acc as int * 10
                + digit as int);
        }
        let shifted: u64 = match acc.checked_mul(10) {
            Some(v) => v,
            None => {
                proof {
                    lemma_too_large(seg@, t, start as int, j as int);
                }
                return None;
            },
        };
        let next: u64 = match shifted.checked_add(digit) {
            Some(v) => v,
            None => {
                proof {
                    lemma_too_large(seg@, t, start as int, j as int);
                }
                return None;
            },
        };
        acc = next;
        j = j + 1;
    }
    proof {
        assert(t.subrange(0, t.len() as int) =~= t);
        assert forall|i: int| 0 <= i < t.len() implies is_ascii_digit(t[i]) by {
            assert(t[i] == seg@[start + i]);
        }
        assert(seg@.subrange(start as int, len as int) == t);
        assert(seg_ok(seg@));
        assert(seg_val(seg@) == acc);
    }
    Some(acc)
}

proof fn lemma_too_large(s: Seq<char>, t: Seq<char>, start: int, j: int)
    requires
        0 <= start <= j < s.len(),
        t == s.subrange(start, s.len() as int),
        t == strip_plus(s),
        dec_value(s.subrange(start, j + 1)) > u64::MAX,
    ensures
        !seg_ok(s),
{
    if all_digits(t) {
        assert(t.subrange(0, j + 1 - start) =~= s.subrange(start, j + 1));
        lemma_dec_value_prefix(t, j + 1 - start);
    }
}

/// Splits a version string on `.` and parses each segment, keeping the
/// values of the segments that parse, in order.
fn parse_components(s: &str) -> (out: Vec<u64>)
    ensures
        out@ == parsed_values(s@),
{
    let n: usize = s.unicode_len();
    let mut out: Vec<u64> = Vec::new();
    let mut cur: Vec<char> = Vec::new();
    let mut i: usize = 0;
    proof {
        assert(s@.subrange(0, 0) =~= Seq::<char>::empty());
        assert(seq![Seq::<char>::empty()].drop_last() =~= Seq::<Seq<char>>::empty());
    }
    while i < n
        invariant
            n == s@.len(),
            i <= n,
            segments(s@.subrange(0, i as int)).len() >= 1,
            cur@ == segments(s@.subrange(0, i as int)).last(),
            out@ == component_values(segments(s@.subrange(0, i as int)).drop_last()),
        decreases n - i,
    {
        let ghost pre: Seq<char> = s@.subrange(0, i as int);
        let ghost post: Seq<char> = s@.subrange(0, i as int + 1);
        proof {
            assert(post.drop_last() =~= pre);
            assert(post.last() == s@[i as int]);
        }
        let c: char = s.get_char(i);
        if c == '.' {
            match parse_segment(&cur) {
                Some(v) => out.push(v),
                None => {},
            }
            cur = Vec::new();
            proof {
                let segs = segments(pre);
                assert(segs.drop_last().push(segs.last()) =~= segs);
                assert(segments(post) == segs.push(Seq::<char>::empty()));
                assert(segments(post).drop_last() =~= segs);
            }
        } else {
            cur.push(c);
            proof {
                let segs = segments(pre);
                assert(segments(post) == segs.update(segs.len() - 1, segs.last().push(
                    s@[i as int],
                )));
                assert(segments(post).drop_last() =~= segs.drop_last());
                assert(segments(post).last() == segs.last().push(s@[i as int]));
            }
        }
        i = i + 1;
    }
    proof {
        assert(s@.subrange(0, n as int) =~= s@);
    }
    match parse_segment(&cur) {
        Some(v) => out.push(v),
        None => {},
    }
    proof {
        let segs = segments(s@);
        lemma_segments_nonempty(s@);
        assert(segs.drop_last().push(segs.last()) =~= segs);
    }
    out
}

/// Returns true exactly when `remote` denotes a strictly greater version
/// than `local`, comparing the parsed components from the left with missing
/// positions read as zero.
pub fn is_newer(remote: &str, local: &str) -> (newer: bool)
    ensures
        newer == spec_is_newer(remote@, local@),
{
    let r: Vec<u64> = parse_components(remote);
    let l: Vec<u64> = parse_components(local);
    let rlen: usize = r.len();
    let llen: usize = l.len();
    let m: usize = if rlen > llen {
        rlen
    } else {
        llen
    };
    let mut i: usize = 0;
    while i < m
        invariant
            rlen == r@.len(),
            llen == l@.len(),
            rlen <= m,
            llen <= m,
            i <= m,
            r@ == parsed_values(remote@),
            l@ == parsed_values(local@),
            seq_newer(r@, l@) == newer_from(r@, l@, i as int),
        decreases m - i,
    {
        let rv: u64 = if i < rlen {
            r[i]
        } else {
            0
        };
        let lv: u64 = if i < llen {
            l[i]
        } else {
            0
        };
        if rv > lv {
            return true;
        }
        if rv < lv {
            return false;
        }
        i = i + 1;
    }
    false
}

proof fn lemma_newer_from_equal_vals(r: Seq<u64>, l: Seq<u64>, i: int)
    requires
        forall|k: int| i <= k ==> #[trigger] val_at(r, k) == val_at(l, k),
    ensures
        !newer_from(r, l, i),
    decreases r.len() + l.len() - i,
{
    if i >= r.len() && i >= l.len() {
    } else {
        assert(val_at(r, i) == val_at(l, i));
        lemma_newer_from_equal_vals(r, l, i + 1);
    }
}

/// A version string is never newer than itself.
pub proof fn lemma_is_newer_irreflexive(a: Seq<char>)
    ensures
        !spec_is_newer(a, a),
{
    lemma_newer_from_equal_vals(parsed_values(a), parsed_values(a), 0);
}

/// Two version strings whose parsed components agree position by position,
/// with positions past the end of the shorter sequence read as zero, are
/// never newer than one another.
pub proof fn lemma_equal_components_not_newer(a: Seq<char>, b: Seq<char>)
    requires
        forall|k: int| 0 <= k ==> #[trigger] val_at(parsed_values(a), k) == val_at(
            parsed_values(b),
            k,
        ),
    ensures
        !spec_is_newer(a, b),
        !spec_is_newer(b, a),
{
    assert forall|k: int| 0 <= k implies #[trigger] val_at(parsed_values(b), k) == val_at(
        parsed_values(a),
        k,
    ) by {
        assert(val_at(parsed_values(a), k) == val_at(parsed_values(b), k));
    }
    lemma_newer_from_equal_vals(parsed_values(a), parsed_values(b), 0);
    lemma_newer_from_equal_vals(parsed_values(b), parsed_values(a), 0);
}

} // verus!
