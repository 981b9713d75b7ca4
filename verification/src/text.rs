//! Byte-level text scanning for the pseudopotential file formats: substring
//! search, whitespace-separated tokens (with Unicode whitespace), line
//! splitting, trimming, decimal integers, and the syntax of floating-point
//! literals. Positions and spans `(start, end)` index the UTF-8 bytes of the
//! text; spans are half-open.
use vstd::prelude::*;

verus! {

// ---------------------------------------------------------------------------
// Substring search
// ---------------------------------------------------------------------------

/// `pat` occurs in `s` at position `k`.
pub open spec fn occurs_at(s: Seq<u8>, pat: Seq<u8>, k: int) -> bool {
    0 <= k && k + pat.len() <= s.len() && s.subrange(k, k + pat.len()) == pat
}

/// `r` is the first position in `[from, to)` where `pat` occurs entirely
/// inside `s[from..to]`, or `None` when there is none.
pub open spec fn first_occurrence(s: Seq<u8>, pat: Seq<u8>, from: int, to: int, r: Option<usize>) -> bool {
    match r {
        Some(k) => from <= k && k + pat.len() <= to && occurs_at(s, pat, k as int) && forall|j: int|
            from <= j < k ==> !occurs_at(s, pat, j),
        None => forall|j: int| from <= j && j + pat.len() <= to ==> !occurs_at(s, pat, j),
    }
}

/// An optional position read as an integer.
pub open spec fn opt_int(r: Option<usize>) -> Option<int> {
    match r {
        Some(k) => Some(k as int),
        None => None,
    }
}

/// The first position in `[from, to)` where `pat` occurs inside `s[from..to]`.
pub open spec fn find_pos(s: Seq<u8>, pat: Seq<u8>, from: int, to: int) -> Option<int>
    decreases to - from,
{
    if from < 0 || from + pat.len() > to {
        None
    } else if occurs_at(s, pat, from) {
        Some(from)
    } else if from >= to {
        None
    } else {
        find_pos(s, pat, from + 1, to)
    }
}

/// `pat` occurs somewhere in `s` (`str::contains`).
pub open spec fn contains(s: Seq<u8>, pat: Seq<u8>) -> bool {
    find_pos(s, pat, 0, s.len() as int) is Some
}

proof fn lemma_find_pos(s: Seq<u8>, pat: Seq<u8>, from: int, to: int, r: Option<usize>)
    requires
        0 <= from,
        to <= s.len(),
        first_occurrence(s, pat, from, to, r),
    ensures
        find_pos(s, pat, from, to) == opt_int(r),
    decreases to - from,
{
    if from + pat.len() <= to {
        match r {
            Some(k) => {
                if k > from {
                    lemma_find_pos(s, pat, from + 1, to, r);
                }
            },
            None => {
                if from < to {
                    lemma_find_pos(s, pat, from + 1, to, r);
                }
            },
        }
    } else {
        match r {
            Some(k) => {},
            None => {},
        }
    }
}

/// The first position in `[from, to)` holding the byte `b`.
pub open spec fn byte_pos(s: Seq<u8>, b: u8, from: int, to: int) -> Option<int>
    decreases to - from,
{
    if from < 0 || from >= to {
        None
    } else if s[from] == b {
        Some(from)
    } else {
        byte_pos(s, b, from + 1, to)
    }
}

proof fn lemma_byte_pos(s: Seq<u8>, b: u8, from: int, to: int, r: Option<usize>)
    requires
        0 <= from,
        to <= s.len(),
        first_byte(s, b, from, to, r),
    ensures
        byte_pos(s, b, from, to) == opt_int(r),
    decreases to - from,
{
    if from < to {
        match r {
            Some(k) => {
                if k > from {
                    lemma_byte_pos(s, b, from + 1, to, r);
                }
            },
            None => {
                lemma_byte_pos(s, b, from + 1, to, r);
            },
        }
    }
}

/// Position of the first occurrence of `pat` inside `s[from..to]`.
pub fn find_in(s: &[u8], pat: &[u8], from: usize, to: usize) -> (r: Option<usize>)
    requires
        from <= to <= s.len(),
    ensures
        first_occurrence(s@, pat@, from as int, to as int, r),
        opt_int(r) == find_pos(s@, pat@, from as int, to as int),
{
    let r = find_first(s, pat, from, to);
    proof {
        lemma_find_pos(s@, pat@, from as int, to as int, r);
    }
    r
}

fn find_first(s: &[u8], pat: &[u8], from: usize, to: usize) -> (r: Option<usize>)
    requires
        from <= to <= s.len(),
    ensures
        first_occurrence(s@, pat@, from as int, to as int, r),
{
    if pat.len() > to - from {
        return None;
    }
    let last = to - pat.len();
    let mut k: usize = from;
    loop
        invariant
            from <= to <= s.len(),
            last == to - pat.len(),
            from <= k <= last,
            forall|j: int| from <= j < k ==> !occurs_at(s@, pat@, j),
        decreases last - k,
    {
        let mut i: usize = 0;
        while i < pat.len() && s[k + i] == pat[i]
            invariant
                k <= last,
                last == to - pat.len(),
                to <= s.len(),
                i <= pat.len(),
                forall|t: int| 0 <= t < i ==> s@[k + t] == pat@[t],
            decreases pat.len() - i,
        {
            i = i + 1;
        }
        if i == pat.len() {
            proof {
                assert(s@.subrange(k as int, k + pat.len()) =~= pat@);
            }
            return Some(k);
        }
        proof {
            assert(s@.subrange(k as int, k + pat.len())[i as int] != pat@[i as int]);
        }
        if k == last {
            return None;
        }
        k = k + 1;
    }
}

/// `r` is the first position in `[from, to)` holding the byte `b`.
pub open spec fn first_byte(s: Seq<u8>, b: u8, from: int, to: int, r: Option<usize>) -> bool {
    match r {
        Some(k) => from <= k < to && s[k as int] == b && forall|j: int| from <= j < k ==> s[j] != b,
        None => forall|j: int| from <= j < to ==> s[j] != b,
    }
}

/// Position of the first byte `b` in `s[from..to]`.
pub fn find_byte(s: &[u8], b: u8, from: usize, to: usize) -> (r: Option<usize>)
    requires
        from <= to <= s.len(),
    ensures
        first_byte(s@, b, from as int, to as int, r),
        opt_int(r) == byte_pos(s@, b, from as int, to as int),
{
    let mut k: usize = from;
    while k < to
        invariant
            from <= k <= to <= s.len(),
            forall|j: int| from <= j < k ==> s@[j] != b,
        decreases to - k,
    {
        if s[k] == b {
            proof {
                lemma_byte_pos(s@, b, from as int, to as int, Some(k));
            }
            return Some(k);
        }
        k = k + 1;
    }
    proof {
        lemma_byte_pos(s@, b, from as int, to as int, None);
    }
    None
}

/// Appends the bytes of `a` to `out`.
pub fn push_all(out: &mut Vec<u8>, a: &[u8])
    ensures
        final(out)@ == old(out)@ + a@,
{
    let ghost start = out@;
    let mut i: usize = 0;
    while i < a.len()
        invariant
            i <= a.len(),
            out@ == start + a@.subrange(0, i as int),
        decreases a.len() - i,
    {
        out.push(a[i]);
        i = i + 1;
        proof {
            assert(a@.subrange(0, i as int) =~= a@.subrange(0, i - 1).push(a@[i - 1]));
        }
    }
    proof {
        assert(a@.subrange(0, a.len() as int) =~= a@);
    }
}

// ---------------------------------------------------------------------------
// Whitespace
// ---------------------------------------------------------------------------

/// Byte length of the whitespace character (Unicode `White_Space`, as
/// `char::is_whitespace`) encoded at position `i` of `s` and ending at or
/// before `end`; 0 when there is none.
pub open spec fn ws_at(s: Seq<u8>, i: int, end: int) -> int {
    if i < 0 || i >= end || end > s.len() {
        0
    } else {
        let b0 = s[i];
        if (0x09 <= b0 && b0 <= 0x0d) || b0 == 0x20 {
            1
        } else if b0 == 0xc2 && end - i >= 2 && (s[i + 1] == 0x85 || s[i + 1] == 0xa0) {
            2
        } else if i + 3 <= end && ((b0 == 0xe1 && s[i + 1] == 0x9a && s[i + 2] == 0x80) || (
        b0 == 0xe2 && s[i + 1] == 0x80 && ((0x80 <= s[i + 2] && s[i + 2] <= 0x8a) || s[i + 2]
            == 0xa8 || s[i + 2] == 0xa9 || s[i + 2] == 0xaf)) || (b0 == 0xe2 && s[i + 1] == 0x81
            && s[i + 2] == 0x9f) || (b0 == 0xe3 && s[i + 1] == 0x80 && s[i + 2] == 0x80)) {
            3
        } else {
            0
        }
    }
}

/// Length of the whitespace character that starts at `i` (see [`ws_at`]).
pub fn ws_len(s: &[u8], i: usize, end: usize) -> (n: usize)
    requires
        end <= s.len(),
    ensures
        n == ws_at(s@, i as int, end as int),
        n <= 3,
{
    if i >= end {
        return 0;
    }
    let b0 = s[i];
    if (0x09 <= b0 && b0 <= 0x0d) || b0 == 0x20 {
        return 1;
    }
    if b0 == 0xc2 && end - i >= 2 && (s[i + 1] == 0x85 || s[i + 1] == 0xa0) {
        return 2;
    }
    if end - i >= 3 {
        let b1 = s[i + 1];
        let b2 = s[i + 2];
        if (b0 == 0xe1 && b1 == 0x9a && b2 == 0x80) || (b0 == 0xe2 && b1 == 0x80 && ((0x80 <= b2
            && b2 <= 0x8a) || b2 == 0xa8 || b2 == 0xa9 || b2 == 0xaf)) || (b0 == 0xe2 && b1
            == 0x81 && b2 == 0x9f) || (b0 == 0xe3 && b1 == 0x80 && b2 == 0x80) {
            return 3;
        }
    }
    0
}

/// Byte length of the whitespace character that ends exactly at `end` and
/// starts at or after `start`; 0 when there is none.
pub open spec fn ws_before(s: Seq<u8>, start: int, end: int) -> int {
    if end - 3 >= start && ws_at(s, end - 3, end) == 3 {
        3
    } else if end - 2 >= start && ws_at(s, end - 2, end) == 2 {
        2
    } else if end - 1 >= start && ws_at(s, end - 1, end) == 1 {
        1
    } else {
        0
    }
}

// ---------------------------------------------------------------------------
// Tokens
// ---------------------------------------------------------------------------

/// The whitespace-separated tokens of `s[i..end]`, given that a token
/// started at `cur` (if any) and runs up to `i`.
pub open spec fn tokens_from(s: Seq<u8>, i: int, end: int, cur: Option<int>) -> Seq<(int, int)>
    decreases end - i,
{
    if i >= end {
        match cur {
            Some(a) => seq![(a, i)],
            None => Seq::empty(),
        }
    } else {
        let w = ws_at(s, i, end);
        if w > 0 {
            let rest = tokens_from(s, i + w, end, None);
            match cur {
                Some(a) => seq![(a, i)] + rest,
                None => rest,
            }
        } else {
            tokens_from(
                s,
                i + 1,
                end,
                match cur {
                    Some(a) => Some(a),
                    None => Some(i),
                },
            )
        }
    }
}

/// The whitespace-separated tokens of `s[start..end]` as spans (what
/// `str::split_whitespace` yields).
pub open spec fn tokens(s: Seq<u8>, start: int, end: int) -> Seq<(int, int)> {
    tokens_from(s, start, end, None)
}

/// Every span of `t` lies inside `[lo, hi]`.
pub open spec fn spans_within(t: Seq<(int, int)>, lo: int, hi: int) -> bool {
    forall|k: int| 0 <= k < t.len() ==> lo <= (#[trigger] t[k]).0 <= t[k].1 <= hi
}

proof fn lemma_tokens_from_within(s: Seq<u8>, lo: int, i: int, end: int, cur: Option<int>)
    requires
        lo <= i <= end,
        cur matches Some(a) ==> lo <= a <= i,
    ensures
        spans_within(tokens_from(s, i, end, cur), lo, end),
    decreases end - i,
{
    if i < end {
        let w = ws_at(s, i, end);
        if w > 0 {
            lemma_tokens_from_within(s, lo, i + w, end, None);
            let rest = tokens_from(s, i + w, end, None);
            match cur {
                Some(a) => {
                    let t = seq![(a, i)] + rest;
                    assert forall|k: int| 0 <= k < t.len() implies lo <= (#[trigger] t[k]).0 <= t[k].1
                        <= end by {
                        if k > 0 {
                            assert(t[k] == rest[k - 1]);
                        }
                    }
                },
                None => {},
            }
        } else {
            lemma_tokens_from_within(
                s,
                lo,
                i + 1,
                end,
                match cur {
                    Some(a) => Some(a),
                    None => Some(i),
                },
            );
        }
    }
}

/// The tokens of `s[start..end]` lie inside `[start, end]`.
pub proof fn lemma_tokens_within(s: Seq<u8>, start: int, end: int)
    requires
        start <= end,
    ensures
        spans_within(tokens(s, start, end), start, end),
{
    lemma_tokens_from_within(s, start, start, end, None);
}

/// Spans of the whitespace-separated tokens of `s[start..end]`.
pub fn split_whitespace(s: &[u8], start: usize, end: usize) -> (t: Vec<(usize, usize)>)
    requires
        start <= end <= s.len(),
    ensures
        t@.len() == tokens(s@, start as int, end as int).len(),
        forall|k: int|
            0 <= k < t@.len() ==> (t@[k].0 as int, t@[k].1 as int) == #[trigger] tokens(
                s@,
                start as int,
                end as int,
            )[k],
{
    let mut out: Vec<(usize, usize)> = Vec::new();
    let mut i: usize = start;
    let mut cur: Option<usize> = None;
    let ghost total = tokens(s@, start as int, end as int);
    while i < end
        invariant
            start <= i <= end <= s.len(),
            cur matches Some(a) ==> start <= a <= i,
            total == tokens(s@, start as int, end as int),
            total == spans_int(out@) + tokens_from(
                s@,
                i as int,
                end as int,
                match cur {
                    Some(a) => Some(a as int),
                    None => None,
                },
            ),
        decreases end - i,
    {
        let w = ws_len(s, i, end);
        let ghost ci = match cur {
            Some(a) => Some(a as int),
            None => None::<int>,
        };
        if w > 0 {
            match cur {
                Some(a) => {
                    proof {
                        assert(spans_int(out@.push((a, i))) =~= spans_int(out@) + seq![(a as int, i as int)]);
                        assert(total == spans_int(out@) + (seq![(a as int, i as int)] + tokens_from(
                            s@,
                            i + w,
                            end as int,
                            None,
                        )));
                        assert(total =~= spans_int(out@.push((a, i))) + tokens_from(
                            s@,
                            i + w,
                            end as int,
                            None,
                        ));
                    }
                    out.push((a, i));
                },
                None => {},
            }
            cur = None;
            i = i + w;
        } else {
            if cur.is_none() {
                cur = Some(i);
            }
            i = i + 1;
        }
    }
    match cur {
        Some(a) => {
            proof {
                assert(spans_int(out@.push((a, i))) =~= spans_int(out@) + seq![(a as int, i as int)]);
            }
            out.push((a, i));
        },
        None => {
            proof {
                assert(spans_int(out@) + Seq::empty() =~= spans_int(out@));
            }
        },
    }
    out
}

/// Spans with `usize` ends read as `int` pairs.
pub open spec fn spans_int(t: Seq<(usize, usize)>) -> Seq<(int, int)> {
    t.map_values(|p: (usize, usize)| (p.0 as int, p.1 as int))
}

// ---------------------------------------------------------------------------
// Lines and trimming
// ---------------------------------------------------------------------------

/// Position of the first `\n` at or after `i`, or `s.len()` when none.
pub open spec fn next_newline(s: Seq<u8>, i: int) -> int
    decreases s.len() - i,
{
    if i < 0 || i >= s.len() {
        s.len() as int
    } else if s[i] == 0x0a {
        i
    } else {
        next_newline(s, i + 1)
    }
}

pub proof fn lemma_next_newline(s: Seq<u8>, i: int)
    requires
        0 <= i <= s.len(),
    ensures
        i <= next_newline(s, i) <= s.len(),
        next_newline(s, i) < s.len() ==> s[next_newline(s, i)] == 0x0a,
        forall|j: int| i <= j < next_newline(s, i) ==> s[j] != 0x0a,
    decreases s.len() - i,
{
    if i < s.len() && s[i] != 0x0a {
        lemma_next_newline(s, i + 1);
    }
}

/// The lines of `s[i..]` as spans, as `str::lines` yields them: split at
/// `\n`, a `\r` just before that `\n` dropped, no empty line after a final
/// `\n`.
pub open spec fn lines_from(s: Seq<u8>, i: int) -> Seq<(int, int)>
    decreases s.len() - i,
{
    if i < 0 || i >= s.len() {
        Seq::empty()
    } else {
        let k = next_newline(s, i);
        proof {
            lemma_next_newline(s, i);
        }
        if k < s.len() {
            let end = if k > i && s[k - 1] == 0x0d {
                k - 1
            } else {
                k
            };
            seq![(i, end)] + lines_from(s, k + 1)
        } else {
            seq![(i, s.len() as int)]
        }
    }
}

/// The lines of `s` as spans (see [`lines_from`]).
pub open spec fn lines(s: Seq<u8>) -> Seq<(int, int)> {
    lines_from(s, 0)
}

/// The lines of `s[i..]` lie inside `[i, s.len()]`.
pub proof fn lemma_lines_within(s: Seq<u8>, i: int)
    requires
        0 <= i,
    ensures
        spans_within(lines_from(s, i), i, s.len() as int),
    decreases s.len() - i,
{
    if i < s.len() {
        lemma_next_newline(s, i);
        let k = next_newline(s, i);
        if k < s.len() {
            lemma_lines_within(s, k + 1);
            let end = if k > i && s[k - 1] == 0x0d {
                k - 1
            } else {
                k
            };
            let rest = lines_from(s, k + 1);
            let t = seq![(i, end)] + rest;
            assert(lines_from(s, i) == t);
            assert forall|j: int| 0 <= j < t.len() implies i <= (#[trigger] t[j]).0 <= t[j].1 <= s.len() by {
                if j > 0 {
                    assert(t[j] == rest[j - 1]);
                }
            }
        }
    }
}

/// Spans of the lines of `s`, as `str::lines` splits them.
pub fn line_spans(s: &[u8]) -> (t: Vec<(usize, usize)>)
    ensures
        spans_int(t@) == lines(s@),
{
    let mut out: Vec<(usize, usize)> = Vec::new();
    let mut i: usize = 0;
    while i < s.len()
        invariant
            i <= s.len(),
            lines(s@) == spans_int(out@) + lines_from(s@, i as int),
        decreases s.len() - i,
    {
        let n = s.len();
        let found = find_byte(s, 0x0a, i, n);
        proof {
            lemma_next_newline(s@, i as int);
        }
        match found {
            Some(k) => {
                proof {
                    lemma_first_byte_is_next_newline(s@, i as int, k as int);
                }
                let end = if k > i && s[k - 1] == 0x0d {
                    k - 1
                } else {
                    k
                };
                proof {
                    assert(spans_int(out@.push((i, end))) =~= spans_int(out@) + seq![(i as int, end as int)]);
                }
                out.push((i, end));
                i = k + 1;
            },
            None => {
                proof {
                    assert(next_newline(s@, i as int) == s.len());
                    assert(spans_int(out@.push((i, n))) =~= spans_int(out@) + seq![(i as int, n as int)]);
                    assert(lines_from(s@, n as int) =~= Seq::<(int, int)>::empty());
                }
                out.push((i, n));
                i = n;
            },
        }
    }
    proof {
        assert(spans_int(out@) + Seq::<(int, int)>::empty() =~= spans_int(out@));
    }
    out
}

proof fn lemma_first_byte_is_next_newline(s: Seq<u8>, i: int, k: int)
    requires
        0 <= i <= k < s.len(),
        s[k] == 0x0a,
        forall|j: int| i <= j < k ==> s[j] != 0x0a,
    ensures
        next_newline(s, i) == k,
    decreases k - i,
{
    if i < k {
        lemma_first_byte_is_next_newline(s, i + 1, k);
    }
}

/// Position after the whitespace that starts at `i` (within `s[..end]`).
pub open spec fn skip_ws(s: Seq<u8>, i: int, end: int) -> int
    decreases end - i,
{
    if i >= end {
        i
    } else {
        let w = ws_at(s, i, end);
        if w > 0 {
            skip_ws(s, i + w, end)
        } else {
            i
        }
    }
}

/// Position before the whitespace that ends at `j` (not going below `start`).
pub open spec fn skip_ws_back(s: Seq<u8>, start: int, j: int) -> int
    decreases j - start,
{
    if j <= start {
        j
    } else {
        let w = ws_before(s, start, j);
        if w > 0 {
            skip_ws_back(s, start, j - w)
        } else {
            j
        }
    }
}

/// The span of `s[a..b]` without leading and trailing whitespace (`str::trim`).
pub open spec fn trim_span(s: Seq<u8>, a: int, b: int) -> (int, int) {
    let a2 = skip_ws(s, a, b);
    (a2, skip_ws_back(s, a2, b))
}

/// Span of `s[a..b]` with surrounding whitespace removed.
pub fn trim(s: &[u8], a: usize, b: usize) -> (r: (usize, usize))
    requires
        a <= b <= s.len(),
    ensures
        (r.0 as int, r.1 as int) == trim_span(s@, a as int, b as int),
        a <= r.0 <= r.1 <= b,
{
    let mut i: usize = a;
    loop
        invariant
            a <= i <= b <= s.len(),
            skip_ws(s@, a as int, b as int) == skip_ws(s@, i as int, b as int),
        ensures
            a <= i <= b,
            skip_ws(s@, a as int, b as int) == i,
        decreases b - i,
    {
        if i >= b {
            break;
        }
        let w = ws_len(s, i, b);
        if w == 0 {
            break;
        }
        i = i + w;
    }
    let mut j: usize = b;
    loop
        invariant
            a <= i <= j <= b <= s.len(),
            skip_ws(s@, a as int, b as int) == i,
            skip_ws_back(s@, i as int, b as int) == skip_ws_back(s@, i as int, j as int),
        ensures
            i <= j <= b,
            skip_ws_back(s@, i as int, b as int) == j,
        decreases j - i,
    {
        if j <= i {
            break;
        }
        let w = ws_len_before(s, i, j);
        if w == 0 {
            break;
        }
        j = j - w;
    }
    (i, j)
}

/// Length of the whitespace character that ends at `j` (see [`ws_before`]).
fn ws_len_before(s: &[u8], start: usize, j: usize) -> (n: usize)
    requires
        start <= j <= s.len(),
    ensures
        n == ws_before(s@, start as int, j as int),
        n <= j - start,
{
    if j - start >= 3 && ws_len(s, j - 3, j) == 3 {
        3
    } else if j - start >= 2 && ws_len(s, j - 2, j) == 2 {
        2
    } else if j - start >= 1 && ws_len(s, j - 1, j) == 1 {
        1
    } else {
        0
    }
}

// ---------------------------------------------------------------------------
// Integers
// ---------------------------------------------------------------------------

/// Why text is not an integer of the wanted type (as `IntErrorKind`).
#[derive(Debug, Clone, Copy, PartialEq, Eq, Structural)]
pub enum IntError {
    /// The text is empty.
    Empty,
    /// A byte that is no decimal digit (or a lone sign).
    InvalidDigit,
    /// The value is above the type's maximum.
    PosOverflow,
    /// The value is below the type's minimum.
    NegOverflow,
}

pub open spec fn is_digit(c: u8) -> bool {
    0x30 <= c <= 0x39
}

/// Reading the decimal digits `s[k..end]` onto `acc`, in order, stopping
/// at the first byte that is no digit or that takes the value over `bound`.
pub open spec fn scan_digits(s: Seq<u8>, k: int, end: int, acc: int, bound: int) -> Result<
    int,
    IntError,
>
    decreases end - k,
{
    if k >= end {
        Ok(acc)
    } else if !is_digit(s[k]) {
        Err(IntError::InvalidDigit)
    } else if acc * 10 + (s[k] - 0x30) > bound {
        Err(IntError::PosOverflow)
    } else {
        scan_digits(s, k + 1, end, acc * 10 + (s[k] - 0x30), bound)
    }
}

/// What `FromStr` gives for an unsigned integer type with maximum `max`
/// on the text `s[a..b]`: an optional `+`, then decimal digits.
pub open spec fn unsigned_from_str(s: Seq<u8>, a: int, b: int, max: int) -> Result<int, IntError> {
    if b <= a {
        Err(IntError::Empty)
    } else if b == a + 1 && (s[a] == 0x2b || s[a] == 0x2d) {
        Err(IntError::InvalidDigit)
    } else if s[a] == 0x2b {
        scan_digits(s, a + 1, b, 0, max)
    } else {
        scan_digits(s, a, b, 0, max)
    }
}

/// What `FromStr` gives for a signed integer type with range
/// `[min, max]` on the text `s[a..b]`: an optional sign, then digits.
pub open spec fn signed_from_str(s: Seq<u8>, a: int, b: int, min: int, max: int) -> Result<
    int,
    IntError,
> {
    if b <= a {
        Err(IntError::Empty)
    } else if b == a + 1 && (s[a] == 0x2b || s[a] == 0x2d) {
        Err(IntError::InvalidDigit)
    } else if s[a] == 0x2d {
        match scan_digits(s, a + 1, b, 0, -min) {
            Ok(v) => Ok(-v),
            Err(IntError::PosOverflow) => Err(IntError::NegOverflow),
            Err(e) => Err(e),
        }
    } else if s[a] == 0x2b {
        scan_digits(s, a + 1, b, 0, max)
    } else {
        scan_digits(s, a, b, 0, max)
    }
}

proof fn lemma_scan_bounds(s: Seq<u8>, k: int, end: int, acc: int, bound: int)
    requires
        0 <= acc <= bound,
    ensures
        scan_digits(s, k, end, acc, bound) matches Ok(v) ==> 0 <= v <= bound,
    decreases end - k,
{
    if k < end && is_digit(s[k]) && acc * 10 + (s[k] - 0x30) <= bound {
        lemma_scan_bounds(s, k + 1, end, acc * 10 + (s[k] - 0x30), bound);
    }
}

/// A value read by [`unsigned_from_str`] is non-negative.
pub proof fn lemma_unsigned_nonnegative(s: Seq<u8>, a: int, b: int, max: int)
    requires
        max >= 0,
    ensures
        unsigned_from_str(s, a, b, max) matches Ok(v) ==> 0 <= v <= max,
{
    if b > a && !(b == a + 1 && (s[a] == 0x2b || s[a] == 0x2d)) {
        if s[a] == 0x2b {
            lemma_scan_bounds(s, a + 1, b, 0, max);
        } else {
            lemma_scan_bounds(s, a, b, 0, max);
        }
    }
}

/// Reads the digits `s[k..end]` as in [`scan_digits`], from 0.
fn scan_decimal(s: &[u8], k: usize, end: usize, bound: u64) -> (r: Result<u64, IntError>)
    requires
        k <= end <= s.len(),
    ensures
        match r {
            Ok(v) => scan_digits(s@, k as int, end as int, 0, bound as int) == Ok::<int, IntError>(v as int),
            Err(e) => scan_digits(s@, k as int, end as int, 0, bound as int) == Err::<int, IntError>(e),
        },
{
    let mut acc: u64 = 0;
    let mut i: usize = k;
    while i < end
        invariant
            k <= i <= end <= s.len(),
            acc <= bound,
            scan_digits(s@, k as int, end as int, 0, bound as int) == scan_digits(
                s@,
                i as int,
                end as int,
                acc as int,
                bound as int,
            ),
        decreases end - i,
    {
        let c = s[i];
        if c < 0x30 || c > 0x39 {
            return Err(IntError::InvalidDigit);
        }
        let d: u64 = (c - 0x30) as u64;
        if d > bound || acc > (bound - d) / 10 {
            proof {
                if d <= bound {
                    let m = (bound - d) as int;
                    assert(acc * 10 > m) by (nonlinear_arith)
                        requires
                            acc > m / 10,
                            m >= 0,
                    ;
                }
            }
            return Err(IntError::PosOverflow);
        }
        proof {
            let m = (bound - d) as int;
            assert(acc * 10 <= m) by (nonlinear_arith)
                requires
                    acc <= m / 10,
                    m >= 0,
            ;
        }
        acc = acc * 10 + d;
        i = i + 1;
    }
    Ok(acc)
}

/// `usize::from_str` on the text `s[a..b]`.
pub fn parse_usize(s: &[u8], a: usize, b: usize) -> (r: Result<usize, IntError>)
    requires
        a <= b <= s.len(),
    ensures
        match r {
            Ok(v) => unsigned_from_str(s@, a as int, b as int, usize::MAX as int) == Ok::<
                int,
                IntError,
            >(v as int),
            Err(e) => unsigned_from_str(s@, a as int, b as int, usize::MAX as int) == Err::<
                int,
                IntError,
            >(e),
        },
{
    if b <= a {
        return Err(IntError::Empty);
    }
    if b == a + 1 && (s[a] == 0x2b || s[a] == 0x2d) {
        return Err(IntError::InvalidDigit);
    }
    let start = if s[a] == 0x2b {
        a + 1
    } else {
        a
    };
    let r = scan_decimal(s, start, b, usize::MAX as u64);
    proof {
        lemma_scan_bounds(s@, start as int, b as int, 0, usize::MAX as int);
    }
    match r {
        Ok(v) => Ok(v as usize),
        Err(e) => Err(e),
    }
}

/// `i32::from_str` on the text `s[a..b]`.
pub fn parse_i32(s: &[u8], a: usize, b: usize) -> (r: Result<i32, IntError>)
    requires
        a <= b <= s.len(),
    ensures
        match r {
            Ok(v) => signed_from_str(s@, a as int, b as int, i32::MIN as int, i32::MAX as int)
                == Ok::<int, IntError>(v as int),
            Err(e) => signed_from_str(s@, a as int, b as int, i32::MIN as int, i32::MAX as int)
                == Err::<int, IntError>(e),
        },
{
    if b <= a {
        return Err(IntError::Empty);
    }
    if b == a + 1 && (s[a] == 0x2b || s[a] == 0x2d) {
        return Err(IntError::InvalidDigit);
    }
    if s[a] == 0x2d {
        let r = scan_decimal(s, a + 1, b, 0x8000_0000u64);
        proof {
            lemma_scan_bounds(s@, a + 1, b as int, 0, 0x8000_0000);
        }
        return match r {
            Ok(v) => Ok((0 - (v as i64)) as i32),
            Err(IntError::PosOverflow) => Err(IntError::NegOverflow),
            Err(e) => Err(e),
        };
    }
    let start = if s[a] == 0x2b {
        a + 1
    } else {
        a
    };
    let r = scan_decimal(s, start, b, 0x7fff_ffffu64);
    proof {
        lemma_scan_bounds(s@, start as int, b as int, 0, 0x7fff_ffff);
    }
    match r {
        Ok(v) => Ok(v as i32),
        Err(e) => Err(e),
    }
}

// ---------------------------------------------------------------------------
// Floating-point literals
// ---------------------------------------------------------------------------

/// Why text is not a floating-point literal.
#[derive(Debug, Clone, Copy, PartialEq, Eq, Structural)]
pub enum FloatError {
    /// The text is empty.
    Empty,
    /// The text is not in the literal grammar.
    Invalid,
}

/// Number of decimal digits in a row from `i` (before `end`).
pub open spec fn digit_run(s: Seq<u8>, i: int, end: int) -> int
    decreases end - i,
{
    if 0 <= i < end && is_digit(s[i]) {
        1 + digit_run(s, i + 1, end)
    } else {
        0
    }
}

/// ASCII lower case of a byte.
pub open spec fn lower(c: u8) -> int {
    if 0x41 <= c <= 0x5a {
        c + 32
    } else {
        c as int
    }
}

/// `s[a..b]` spells `w`, ignoring ASCII case.
pub open spec fn spells(s: Seq<u8>, a: int, b: int, w: Seq<u8>) -> bool {
    b - a == w.len() && forall|i: int| 0 <= i < w.len() ==> lower(s[a + i]) == w[i]
}

/// `s[a..b]` is a decimal number: digits, with an optional fraction part
/// after a `.` (at least one digit in all), then optionally `e` or `E`, an
/// optional sign and at least one digit.
pub open spec fn is_decimal_number(s: Seq<u8>, a: int, b: int) -> bool {
    let p = a + digit_run(s, a, b);
    let has_point = p < b && s[p] == 0x2e;
    let q = if has_point {
        p + 1 + digit_run(s, p + 1, b)
    } else {
        p
    };
    let mantissa_digits = if has_point {
        q - a - 1
    } else {
        q - a
    };
    &&& mantissa_digits > 0
    &&& (q == b || ((s[q] == 0x65 || s[q] == 0x45) && {
        let t = if q + 1 < b && (s[q + 1] == 0x2b || s[q + 1] == 0x2d) {
            q + 2
        } else {
            q + 1
        };
        t < b && t + digit_run(s, t, b) == b
    }))
}

/// `s[a..b]` is accepted by `f64::from_str`: an optional sign, then
/// `inf`, `infinity` or `nan` in any case, or a decimal number.
pub open spec fn is_float_literal(s: Seq<u8>, a: int, b: int) -> bool {
    let c = if a < b && (s[a] == 0x2b || s[a] == 0x2d) {
        a + 1
    } else {
        a
    };
    ||| spells(s, c, b, seq![0x69u8, 0x6e, 0x66])
    ||| spells(s, c, b, seq![0x69u8, 0x6e, 0x66, 0x69, 0x6e, 0x69, 0x74, 0x79])
    ||| spells(s, c, b, seq![0x6eu8, 0x61, 0x6e])
    ||| is_decimal_number(s, c, b)
}

/// What `f64::from_str` reports on `s[a..b]` when it fails; `None` when
/// it succeeds.
pub open spec fn float_error(s: Seq<u8>, a: int, b: int) -> Option<FloatError> {
    if b <= a {
        Some(FloatError::Empty)
    } else if is_float_literal(s, a, b) {
        None
    } else {
        Some(FloatError::Invalid)
    }
}

proof fn lemma_digit_run_bounds(s: Seq<u8>, i: int, end: int)
    requires
        0 <= i <= end,
    ensures
        0 <= digit_run(s, i, end) <= end - i,
    decreases end - i,
{
    if i < end && is_digit(s[i]) {
        lemma_digit_run_bounds(s, i + 1, end);
    }
}

/// Number of decimal digits in a row from `i` (before `end`).
fn count_digits(s: &[u8], i: usize, end: usize) -> (n: usize)
    requires
        i <= end <= s.len(),
    ensures
        n == digit_run(s@, i as int, end as int),
        i + n <= end,
{
    let mut j: usize = i;
    while j < end && 0x30 <= s[j] && s[j] <= 0x39
        invariant
            i <= j <= end <= s.len(),
            digit_run(s@, i as int, end as int) == (j - i) + digit_run(s@, j as int, end as int),
        decreases end - j,
    {
        j = j + 1;
    }
    j - i
}

/// `s[a..b]` spells `w` in any ASCII case.
fn spells_word(s: &[u8], a: usize, b: usize, w: &[u8]) -> (r: bool)
    requires
        a <= b <= s.len(),
    ensures
        r == spells(s@, a as int, b as int, w@),
{
    if b - a != w.len() {
        return false;
    }
    let mut i: usize = 0;
    while i < w.len()
        invariant
            b - a == w.len(),
            a <= b <= s.len(),
            i <= w.len(),
            forall|k: int| 0 <= k < i ==> lower(s@[a + k]) == w@[k],
        decreases w.len() - i,
    {
        let c = s[a + i];
        let lc: u8 = if 0x41 <= c && c <= 0x5a {
            c + 32
        } else {
            c
        };
        if lc != w[i] {
            return false;
        }
        i = i + 1;
    }
    true
}

/// Whether `s[a..b]` is a literal that `f64::from_str` accepts.
pub fn check_float(s: &[u8], a: usize, b: usize) -> (r: Option<FloatError>)
    requires
        a <= b <= s.len(),
    ensures
        r == float_error(s@, a as int, b as int),
{
    if b <= a {
        return Some(FloatError::Empty);
    }
    let c = if s[a] == 0x2b || s[a] == 0x2d {
        a + 1
    } else {
        a
    };
    let inf: [u8; 3] = [0x69, 0x6e, 0x66];
    let infinity: [u8; 8] = [0x69, 0x6e, 0x66, 0x69, 0x6e, 0x69, 0x74, 0x79];
    let nan: [u8; 3] = [0x6e, 0x61, 0x6e];
    proof {
        assert(inf@ =~= seq![0x69u8, 0x6e, 0x66]);
        assert(infinity@ =~= seq![0x69u8, 0x6e, 0x66, 0x69, 0x6e, 0x69, 0x74, 0x79]);
        assert(nan@ =~= seq![0x6eu8, 0x61, 0x6e]);
    }
    if spells_word(s, c, b, inf.as_slice()) || spells_word(s, c, b, infinity.as_slice())
        || spells_word(s, c, b, nan.as_slice()) {
        return None;
    }
    let p = c + count_digits(s, c, b);
    let has_point = p < b && s[p] == 0x2e;
    let q = if has_point {
        p + 1 + count_digits(s, p + 1, b)
    } else {
        p
    };
    let mantissa_digits = if has_point {
        q - c - 1
    } else {
        q - c
    };
    if mantissa_digits == 0 {
        return Some(FloatError::Invalid);
    }
    if q == b {
        return None;
    }
    if s[q] != 0x65 && s[q] != 0x45 {
        return Some(FloatError::Invalid);
    }
    let t = if q + 1 < b && (s[q + 1] == 0x2b || s[q + 1] == 0x2d) {
        q + 2
    } else {
        q + 1
    };
    if t < b && t + count_digits(s, t, b) == b {
        None
    } else {
        Some(FloatError::Invalid)
    }
}

// ---------------------------------------------------------------------------
// Decimal rendering
// ---------------------------------------------------------------------------

/// The decimal digits of `n`, most significant first.
pub open spec fn decimal(n: nat) -> Seq<u8>
    decreases n,
{
    if n < 10 {
        seq![(n + 0x30) as u8]
    } else {
        decimal(n / 10).push(((n % 10) + 0x30) as u8)
    }
}

/// Appends the decimal digits of `n` to `out`.
pub fn push_decimal(out: &mut Vec<u8>, n: usize)
    ensures
        final(out)@ == old(out)@ + decimal(n as nat),
    decreases n,
{
    if n < 10 {
        out.push((n as u8) + 0x30);
        proof {
            assert(decimal(n as nat) =~= seq![(n + 0x30) as u8]);
        }
    } else {
        push_decimal(out, n / 10);
        out.push(((n % 10) as u8) + 0x30);
    }
}

} // verus!
