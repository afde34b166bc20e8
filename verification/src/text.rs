//! Character classes and sequence-level models shared by the identifier
//! codec and the update grammar: splitting and joining on `:`, locating the
//! first occurrence of a delimiter, and the decimal integer grammar.

use vstd::prelude::*;
use vstd::string::StrSliceExecFns;

verus! {

// ---------------------------------------------------------------------------
// Character classes
// ---------------------------------------------------------------------------

/// The identifier charset: ASCII alphanumerics, `_`, `-` and `.`.
pub open spec fn valid_char(c: char) -> bool {
    ('a' <= c && c <= 'z') || ('A' <= c && c <= 'Z') || ('0' <= c && c <= '9') || c == '_'
        || c == '-' || c == '.'
}

/// A single identifier segment: every character drawn from the charset.
pub open spec fn valid_segment(s: Seq<char>) -> bool {
    forall|i: int| 0 <= i < s.len() ==> valid_char(#[trigger] s[i])
}

/// A (possibly multi-segment) task key: charset characters and `:` separators.
pub open spec fn valid_task_chars(s: Seq<char>) -> bool {
    forall|i: int| 0 <= i < s.len() ==> valid_char(#[trigger] s[i]) || s[i] == ':'
}

/// No `:` anywhere in the sequence.
pub open spec fn no_colon(s: Seq<char>) -> bool {
    forall|i: int| 0 <= i < s.len() ==> #[trigger] s[i] != ':'
}

/// A charset character is never a separator, so every valid segment is
/// colon-free.
pub proof fn lemma_valid_segment_no_colon(s: Seq<char>)
    requires
        valid_segment(s),
    ensures
        no_colon(s),
{
}

/// Exec mirror of `valid_char`.
pub(crate) fn is_valid_char(c: char) -> (r: bool)
    ensures
        r == valid_char(c),
{
    ('a' <= c && c <= 'z') || ('A' <= c && c <= 'Z') || ('0' <= c && c <= '9') || c == '_'
        || c == '-' || c == '.'
}

// ---------------------------------------------------------------------------
// First occurrence of a character
// ---------------------------------------------------------------------------

/// Index of the first occurrence of `c` in `s`, or `-1` if absent.
pub open spec fn first_occ(s: Seq<char>, c: char) -> int
    decreases s.len(),
{
    if s.len() == 0 {
        -1
    } else if s[0] == c {
        0
    } else if first_occ(s.skip(1), c) == -1 {
        -1
    } else {
        first_occ(s.skip(1), c) + 1
    }
}

/// `first_occ` points at `c`, nothing before it is `c`, and `-1` means `c`
/// does not occur at all.
pub proof fn lemma_first_occ_props(s: Seq<char>, c: char)
    ensures
        -1 <= first_occ(s, c) < s.len(),
        first_occ(s, c) >= 0 ==> s[first_occ(s, c)] == c,
        forall|j: int| 0 <= j < first_occ(s, c) ==> s[j] != c,
        first_occ(s, c) == -1 ==> no_occ(s, c),
    decreases s.len(),
{
    if s.len() > 0 && s[0] != c {
        lemma_first_occ_props(s.skip(1), c);
        assert forall|j: int| 0 <= j < first_occ(s, c) implies s[j] != c by {
            if j > 0 {
                assert(s.skip(1)[j - 1] == s[j]);
            }
        }
        if first_occ(s, c) == -1 {
            assert forall|j: int| 0 <= j < s.len() implies #[trigger] s[j] != c by {
                if j > 0 {
                    assert(s.skip(1)[j - 1] == s[j]);
                }
            }
        }
    }
}

/// `c` occurs nowhere in `s`.
pub open spec fn no_occ(s: Seq<char>, c: char) -> bool {
    forall|j: int| 0 <= j < s.len() ==> #[trigger] s[j] != c
}

/// If `c` sits at position `i` and nowhere earlier, then `i` is the first
/// occurrence.
pub proof fn lemma_first_occ_is(s: Seq<char>, c: char, i: int)
    requires
        0 <= i < s.len(),
        s[i] == c,
        forall|j: int| 0 <= j < i ==> #[trigger] s[j] != c,
    ensures
        first_occ(s, c) == i,
{
    lemma_first_occ_props(s, c);
}

/// Exec search for the first occurrence of `c`.
pub(crate) fn find_char(s: &str, c: char) -> (r: Option<usize>)
    ensures
        match r {
            Some(i) => i < s@.len() && first_occ(s@, c) == i as int,
            None => first_occ(s@, c) == -1,
        },
{
    let n = s.unicode_len();
    let mut i: usize = 0;
    while i < n
        invariant
            n == s@.len(),
            0 <= i <= n,
            forall|j: int| 0 <= j < i ==> #[trigger] s@[j] != c,
        decreases n - i,
    {
        if s.get_char(i) == c {
            proof {
                lemma_first_occ_is(s@, c, i as int);
            }
            return Some(i);
        }
        i += 1;
    }
    proof {
        lemma_first_occ_props(s@, c);
    }
    None
}

// ---------------------------------------------------------------------------
// Splitting on `:` and joining back
// ---------------------------------------------------------------------------

/// Index of the last `:` in `s`, or `-1` if there is none.
pub open spec fn last_colon(s: Seq<char>) -> int
    decreases s.len(),
{
    if s.len() == 0 {
        -1
    } else if s[s.len() - 1] == ':' {
        s.len() - 1
    } else {
        last_colon(s.drop_last())
    }
}

/// `last_colon` stays in range, points at a `:`, and nothing after it is one.
pub proof fn lemma_last_colon_props(s: Seq<char>)
    ensures
        -1 <= last_colon(s) < s.len(),
        last_colon(s) >= 0 ==> s[last_colon(s)] == ':',
        forall|j: int| last_colon(s) < j < s.len() ==> #[trigger] s[j] != ':',
    decreases s.len(),
{
    if s.len() > 0 && s[s.len() - 1] != ':' {
        lemma_last_colon_props(s.drop_last());
        assert forall|j: int| last_colon(s) < j < s.len() implies #[trigger] s[j] != ':' by {
            if j < s.len() - 1 {
                assert(s.drop_last()[j] == s[j]);
            }
        }
    }
}

/// The segments of `s` delimited by `:`; always non-empty, and an empty
/// input yields one empty segment.
pub open spec fn split_colon(s: Seq<char>) -> Seq<Seq<char>>
    decreases s.len(),
    via split_colon_decreases
{
    if last_colon(s) == -1 {
        seq![s]
    } else {
        split_colon(s.take(last_colon(s))).push(s.skip(last_colon(s) + 1))
    }
}

#[via_fn]
proof fn split_colon_decreases(s: Seq<char>) {
    lemma_last_colon_props(s);
}

/// The segments rejoined with `:` between them.
pub open spec fn join_colon(parts: Seq<Seq<char>>) -> Seq<char>
    decreases parts.len(),
{
    if parts.len() == 0 {
        Seq::empty()
    } else if parts.len() == 1 {
        parts[0]
    } else {
        join_colon(parts.drop_last()) + seq![':'] + parts.last()
    }
}

/// Splitting always produces at least one segment.
pub proof fn lemma_split_nonempty(s: Seq<char>)
    ensures
        split_colon(s).len() >= 1,
{
    lemma_last_colon_props(s);
}

/// How one appended character changes the split: a `:` opens a fresh empty
/// segment, any other character extends the last one.
pub proof fn lemma_split_push(x: Seq<char>, c: char)
    ensures
        c == ':' ==> split_colon(x.push(c)) == split_colon(x).push(Seq::<char>::empty()),
        c != ':' ==> split_colon(x.push(c)) == split_colon(x).drop_last().push(
            split_colon(x).last().push(c),
        ),
{
    let y = x.push(c);
    lemma_last_colon_props(x);
    lemma_split_nonempty(x);
    if c == ':' {
        assert(y[y.len() - 1] == ':');
        assert(last_colon(y) == x.len());
        assert(y.take(x.len() as int) =~= x);
        assert(y.skip(x.len() as int + 1) =~= Seq::<char>::empty());
    } else {
        assert(y[y.len() - 1] == c);
        assert(y.drop_last() =~= x);
        assert(last_colon(y) == last_colon(x));
        if last_colon(x) == -1 {
            assert(split_colon(y) =~~= split_colon(x).drop_last().push(
                split_colon(x).last().push(c),
            ));
        } else {
            let lc = last_colon(x);
            assert(y.take(lc) =~= x.take(lc));
            assert(y.skip(lc + 1) =~= x.skip(lc + 1).push(c));
            assert(split_colon(y) =~~= split_colon(x).drop_last().push(
                split_colon(x).last().push(c),
            ));
        }
    }
}

/// The last colon of `x ++ ":" ++ y` sits `x.len() + 1` past the last colon
/// of `y` (or at the separator itself when `y` has none).
pub proof fn lemma_last_colon_concat(x: Seq<char>, y: Seq<char>)
    ensures
        last_colon(x + seq![':'] + y) == x.len() + 1 + last_colon(y),
    decreases y.len(),
{
    let s = x + seq![':'] + y;
    if y.len() == 0 {
        assert(s[s.len() - 1] == ':');
    } else if y[y.len() - 1] == ':' {
        assert(s[s.len() - 1] == ':');
    } else {
        assert(s[s.len() - 1] == y[y.len() - 1]);
        assert(s.drop_last() =~= x + seq![':'] + y.drop_last());
        lemma_last_colon_concat(x, y.drop_last());
    }
}

/// Splitting distributes over a `:` separator.
pub proof fn lemma_split_concat(x: Seq<char>, y: Seq<char>)
    ensures
        split_colon(x + seq![':'] + y) == split_colon(x) + split_colon(y),
    decreases y.len(),
{
    let s = x + seq![':'] + y;
    lemma_last_colon_concat(x, y);
    lemma_last_colon_props(y);
    let lcy = last_colon(y);
    if lcy == -1 {
        assert(last_colon(s) == x.len());
        assert(s.take(x.len() as int) =~= x);
        assert(s.skip(x.len() as int + 1) =~= y);
        assert(split_colon(s) =~~= split_colon(x) + split_colon(y));
    } else {
        assert(last_colon(s) == x.len() + 1 + lcy);
        assert(s.take(x.len() + 1 + lcy) =~= x + seq![':'] + y.take(lcy));
        assert(s.skip(x.len() + 1 + lcy + 1) =~= y.skip(lcy + 1));
        lemma_split_concat(x, y.take(lcy));
        assert(split_colon(s) =~~= split_colon(x) + split_colon(y));
    }
}

/// A colon-free sequence splits into itself alone.
pub proof fn lemma_split_no_colon(s: Seq<char>)
    requires
        no_colon(s),
    ensures
        split_colon(s) == seq![s],
{
    lemma_last_colon_props(s);
    if last_colon(s) >= 0 {
        assert(s[last_colon(s)] == ':');
        assert(false);
    }
}

/// Joining the split of `s` gives `s` back.
pub proof fn lemma_join_split(s: Seq<char>)
    ensures
        join_colon(split_colon(s)) == s,
    decreases s.len(),
{
    lemma_last_colon_props(s);
    let lc = last_colon(s);
    if lc >= 0 {
        lemma_join_split(s.take(lc));
        lemma_split_nonempty(s.take(lc));
        let parts = split_colon(s.take(lc));
        assert(parts.push(s.skip(lc + 1)).drop_last() =~~= parts);
        assert(join_colon(parts.push(s.skip(lc + 1))) == join_colon(parts) + seq![':'] + s.skip(
            lc + 1,
        ));
        assert(s.take(lc) + seq![':'] + s.skip(lc + 1) =~= s);
    }
}

/// Every segment of a well-charactered task key is a valid segment.
pub proof fn lemma_split_segments_valid(s: Seq<char>)
    requires
        valid_task_chars(s),
    ensures
        forall|i: int|
            0 <= i < split_colon(s).len() ==> valid_segment(#[trigger] split_colon(s)[i]),
    decreases s.len(),
{
    lemma_last_colon_props(s);
    let lc = last_colon(s);
    if lc == -1 {
        assert(valid_segment(s));
    } else {
        assert(valid_task_chars(s.take(lc)));
        lemma_split_segments_valid(s.take(lc));
        let tail = s.skip(lc + 1);
        assert forall|i: int| 0 <= i < tail.len() implies valid_char(#[trigger] tail[i]) by {
            assert(tail[i] == s[lc + 1 + i]);
            assert(s[lc + 1 + i] != ':');
        }
        assert forall|i: int|
            0 <= i < split_colon(s).len() implies valid_segment(
            #[trigger] split_colon(s)[i],
        ) by {
            if i < split_colon(s).len() - 1 {
                assert(split_colon(s)[i] == split_colon(s.take(lc))[i]);
            } else {
                assert(split_colon(s)[i] == tail);
            }
        }
    }
}

/// Joining valid segments yields a well-charactered task key.
pub proof fn lemma_join_valid(parts: Seq<Seq<char>>)
    requires
        forall|i: int| 0 <= i < parts.len() ==> valid_segment(#[trigger] parts[i]),
    ensures
        valid_task_chars(join_colon(parts)),
    decreases parts.len(),
{
    if parts.len() > 1 {
        assert forall|i: int|
            0 <= i < parts.drop_last().len() implies valid_segment(
            #[trigger] parts.drop_last()[i],
        ) by {
            assert(parts.drop_last()[i] == parts[i]);
        }
        lemma_join_valid(parts.drop_last());
        let j = join_colon(parts.drop_last());
        let whole = j + seq![':'] + parts.last();
        assert forall|i: int|
            0 <= i < whole.len() implies valid_char(#[trigger] whole[i]) || whole[i] == ':' by {
            if i < j.len() {
                assert(whole[i] == j[i]);
            } else if i == j.len() {
                assert(whole[i] == ':');
            } else {
                assert(whole[i] == parts.last()[i - j.len() - 1]);
            }
        }
    }
}

/// Exec split on `:`, mirroring `split_colon`.
pub(crate) fn split_colon_str(s: &str) -> (r: Vec<String>)
    ensures
        r@.map_values(|t: String| t@) == split_colon(s@),
        r@.len() >= 1,
{
    let n = s.unicode_len();
    let mut segs: Vec<String> = Vec::new();
    let mut start: usize = 0;
    let mut i: usize = 0;
    proof {
        assert(s@.take(0) =~= Seq::<char>::empty());
        assert(split_colon(Seq::<char>::empty()) =~~= seq![Seq::<char>::empty()]);
        assert(segs@.map_values(|t: String| t@).push(s@.subrange(0, 0)) =~~= seq![
            Seq::<char>::empty(),
        ]);
    }
    while i < n
        invariant
            n == s@.len(),
            0 <= start <= i <= n,
            segs@.map_values(|t: String| t@).push(s@.subrange(start as int, i as int))
                == split_colon(s@.take(i as int)),
        decreases n - i,
    {
        let c = s.get_char(i);
        proof {
            lemma_split_push(s@.take(i as int), c);
            assert(s@.take(i + 1) =~= s@.take(i as int).push(c));
            lemma_split_nonempty(s@.take(i as int));
        }
        if c == ':' {
            let seg = String::from_str(s.substring_char(start, i));
            segs.push(seg);
            proof {
                assert(segs@.map_values(|t: String| t@).push(
                    s@.subrange(i + 1, i + 1),
                ) =~~= split_colon(s@.take(i + 1)));
            }
            start = i + 1;
        } else {
            proof {
                assert(s@.subrange(start as int, i + 1) =~= s@.subrange(
                    start as int,
                    i as int,
                ).push(c));
                assert(segs@.map_values(|t: String| t@).push(
                    s@.subrange(start as int, i + 1),
                ) =~~= split_colon(s@.take(i + 1)));
            }
        }
        i += 1;
    }
    let seg = String::from_str(s.substring_char(start, n));
    segs.push(seg);
    proof {
        assert(s@.take(n as int) =~= s@);
        assert(segs@.map_values(|t: String| t@) =~~= split_colon(s@));
    }
    segs
}

// ---------------------------------------------------------------------------
// String equality
// ---------------------------------------------------------------------------

/// Exec equality of two string slices by their character views.
pub(crate) fn str_eq(a: &str, b: &str) -> (r: bool)
    ensures
        r == (a@ == b@),
{
    let n = a.unicode_len();
    if n != b.unicode_len() {
        return false;
    }
    let mut i: usize = 0;
    while i < n
        invariant
            n == a@.len(),
            n == b@.len(),
            0 <= i <= n,
            forall|j: int| 0 <= j < i ==> #[trigger] a@[j] == b@[j],
        decreases n - i,
    {
        if a.get_char(i) != b.get_char(i) {
            return false;
        }
        i += 1;
    }
    proof {
        assert(a@ =~= b@);
    }
    true
}

// ---------------------------------------------------------------------------
// The decimal integer grammar
// ---------------------------------------------------------------------------

/// An ASCII decimal digit.
pub open spec fn is_digit(c: char) -> bool {
    '0' <= c && c <= '9'
}

/// The numeric value of one digit.
pub open spec fn digit_val(c: char) -> int {
    (c as u32) as int - ('0' as u32) as int
}

/// A non-empty, all-digit sequence.
pub open spec fn all_digits(s: Seq<char>) -> bool {
    s.len() > 0 && forall|i: int| 0 <= i < s.len() ==> is_digit(#[trigger] s[i])
}

/// The value of a digit sequence read in base ten.
pub open spec fn dec_val(s: Seq<char>) -> int
    decreases s.len(),
{
    if s.len() == 0 {
        0
    } else {
        dec_val(s.drop_last()) * 10 + digit_val(s.last())
    }
}

/// A digit sequence never has a negative value.
pub proof fn lemma_dec_val_nonneg(s: Seq<char>)
    requires
        forall|i: int| 0 <= i < s.len() ==> is_digit(#[trigger] s[i]),
    ensures
        dec_val(s) >= 0,
    decreases s.len(),
{
    if s.len() > 0 {
        lemma_dec_val_nonneg(s.drop_last());
    }
}

/// Reading more digits can only grow the value.
pub proof fn lemma_dec_val_monotone(s: Seq<char>, k: int)
    requires
        0 <= k <= s.len(),
        forall|i: int| 0 <= i < s.len() ==> is_digit(#[trigger] s[i]),
    ensures
        dec_val(s) >= dec_val(s.take(k)),
    decreases s.len(),
{
    if k == s.len() {
        assert(s.take(k) =~= s);
    } else {
        assert(forall|i: int|
            0 <= i < s.drop_last().len() ==> is_digit(#[trigger] s.drop_last()[i]));
        lemma_dec_val_monotone(s.drop_last(), k);
        lemma_dec_val_nonneg(s.drop_last());
        assert(s.drop_last().take(k) =~= s.take(k));
    }
}

/// How Rust reads a signed 64-bit integer: an optional sign, then one or
/// more digits, with the value required to fit; `None` on any other shape.
pub open spec fn parse_i64_spec(s: Seq<char>) -> Option<int> {
    let signed = s.len() > 0 && (s[0] == '+' || s[0] == '-');
    let mag = if signed {
        s.skip(1)
    } else {
        s
    };
    let negative = s.len() > 0 && s[0] == '-';
    if !all_digits(mag) {
        None
    } else {
        let v = if negative {
            -dec_val(mag)
        } else {
            dec_val(mag)
        };
        if i64::MIN as int <= v <= i64::MAX as int {
            Some(v)
        } else {
            None
        }
    }
}

/// Exec reader for the signed 64-bit grammar above.
pub(crate) fn parse_i64_str(s: &str) -> (r: Option<i64>)
    ensures
        match r {
            Some(v) => parse_i64_spec(s@) == Some(v as int),
            None => parse_i64_spec(s@) is None,
        },
{
    let n = s.unicode_len();
    if n == 0 {
        return None;
    }
    let first = s.get_char(0);
    let negative = first == '-';
    let start: usize = if first == '-' || first == '+' {
        1
    } else {
        0
    };
    let ghost mag: Seq<char> = s@.skip(start as int);
    if start >= n {
        return None;
    }
    let mut i: usize = start;
    let mut acc: u64 = 0;
    proof {
        assert(mag.take(0) =~= Seq::<char>::empty());
    }
    while i < n
        invariant
            n == s@.len(),
            0 < n,
            start <= i <= n,
            start <= 1,
            (start as int) < n as int,
            mag == s@.skip(start as int),
            negative == (s@[0] == '-'),
            (start == 1) == (s@[0] == '-' || s@[0] == '+'),
            forall|j: int| 0 <= j < i - start ==> is_digit(#[trigger] mag[j]),
            acc as int == dec_val(mag.take(i - start)),
            acc <= 9223372036854775808u64,
        decreases n - i,
    {
        let c = s.get_char(i);
        proof {
            assert(mag[i - start] == s@[i as int]);
        }
        if !('0' <= c && c <= '9') {
            return None;
        }
        let d: u64 = ((c as u32) - ('0' as u32)) as u64;
        proof {
            assert(mag.take(i - start + 1) =~= mag.take(i - start).push(c));
            assert(mag.take(i - start + 1).drop_last() =~= mag.take(i - start));
            assert(dec_val(mag.take(i - start + 1)) == (acc as int) * 10 + d as int);
        }
        if acc > 922337203685477580u64 {
            proof {
                assert(s@.skip(0) =~= s@);
                if all_digits(mag) {
                    lemma_dec_val_monotone(mag, i - start + 1);
                }
            }
            return None;
        }
        let next: u64 = acc * 10 + d;
        if next > 9223372036854775808u64 {
            proof {
                assert(s@.skip(0) =~= s@);
                if all_digits(mag) {
                    lemma_dec_val_monotone(mag, i - start + 1);
                }
            }
            return None;
        }
        acc = next;
        i += 1;
    }
    proof {
        assert(s@.skip(0) =~= s@);
        assert(mag.take(n - start) =~= mag);
        assert(all_digits(mag));
    }
    if negative {
        if acc == 9223372036854775808u64 {
            Some(i64::MIN)
        } else {
            Some(-(acc as i64))
        }
    } else {
        if acc == 9223372036854775808u64 {
            None
        } else {
            Some(acc as i64)
        }
    }
}

// ---------------------------------------------------------------------------
// Canonical decimal form
// ---------------------------------------------------------------------------

/// The digit character for one value below ten.
pub open spec fn digit_char(d: int) -> char {
    if d == 0 {
        '0'
    } else if d == 1 {
        '1'
    } else if d == 2 {
        '2'
    } else if d == 3 {
        '3'
    } else if d == 4 {
        '4'
    } else if d == 5 {
        '5'
    } else if d == 6 {
        '6'
    } else if d == 7 {
        '7'
    } else if d == 8 {
        '8'
    } else {
        '9'
    }
}

/// The decimal digits of `n`, most significant first, with no leading zero
/// (a lone `0` for zero).
pub open spec fn dec_digits(n: nat) -> Seq<char>
    decreases n,
{
    if n < 10 {
        seq![digit_char(n as int)]
    } else {
        dec_digits(n / 10).push(digit_char((n % 10) as int))
    }
}

/// The decimal digits of `n` are digits, never a sign, and read back as `n`.
pub proof fn lemma_dec_digits(n: nat)
    ensures
        dec_digits(n).len() >= 1,
        all_digits(dec_digits(n)),
        dec_val(dec_digits(n)) == n,
        dec_digits(n)[0] != '-' && dec_digits(n)[0] != '+',
    decreases n,
{
    if n < 10 {
        let ds = dec_digits(n);
        assert(ds.len() == 1);
        assert(ds.last() == digit_char(n as int));
        assert(ds.drop_last() =~= Seq::<char>::empty());
        assert(dec_val(Seq::<char>::empty()) == 0);
        assert(dec_val(ds) == dec_val(ds.drop_last()) * 10 + digit_val(ds.last()));
        assert(dec_val(ds) == digit_val(digit_char(n as int)));
        assert(('0' as u32) == 48 && ('1' as u32) == 49 && ('2' as u32) == 50 && ('3' as u32) == 51
            && ('4' as u32) == 52 && ('5' as u32) == 53 && ('6' as u32) == 54 && ('7' as u32) == 55
            && ('8' as u32) == 56 && ('9' as u32) == 57);
        assert(digit_val(digit_char(n as int)) == n);
    } else {
        lemma_dec_digits(n / 10);
        let ds = dec_digits(n);
        assert(ds.drop_last() =~= dec_digits(n / 10));
        assert(ds.last() == digit_char((n % 10) as int));
        assert(dec_val(ds) == dec_val(dec_digits(n / 10)) * 10 + digit_val(
            digit_char((n % 10) as int),
        ));
        assert((n / 10) * 10 + (n % 10) == n);
        assert forall|i: int| 0 <= i < ds.len() implies is_digit(#[trigger] ds[i]) by {
            if i < ds.len() - 1 {
                assert(ds[i] == dec_digits(n / 10)[i]);
            }
        }
    }
}

/// The canonical decimal form of a signed 64-bit value: a `-` for
/// negatives, then the digits of the magnitude.
pub open spec fn i64_dec_chars(v: i64) -> Seq<char> {
    if v < 0 {
        seq!['-'] + dec_digits((-(v as int)) as nat)
    } else {
        dec_digits(v as nat)
    }
}

/// Law: the canonical decimal form of any signed 64-bit value parses back
/// as exactly that value, so a stored numeric field survives the round
/// trip through the store's text representation.
pub proof fn lemma_format_parse(v: i64)
    ensures
        parse_i64_spec(i64_dec_chars(v)) == Some(v as int),
{
    if v < 0 {
        let m = (-(v as int)) as nat;
        lemma_dec_digits(m);
        let s = seq!['-'] + dec_digits(m);
        assert(s[0] == '-');
        assert(s.skip(1) =~= dec_digits(m));
    } else {
        lemma_dec_digits(v as nat);
        let s = dec_digits(v as nat);
        assert(is_digit(s[0]));
    }
}

/// The one-character string for one digit value.
fn digit_str(d: u64) -> (r: &'static str)
    requires
        d < 10,
    ensures
        r@ == seq![digit_char(d as int)],
{
    if d == 0 {
        proof {
            reveal_strlit("0");
        }
        "0"
    } else if d == 1 {
        proof {
            reveal_strlit("1");
        }
        "1"
    } else if d == 2 {
        proof {
            reveal_strlit("2");
        }
        "2"
    } else if d == 3 {
        proof {
            reveal_strlit("3");
        }
        "3"
    } else if d == 4 {
        proof {
            reveal_strlit("4");
        }
        "4"
    } else if d == 5 {
        proof {
            reveal_strlit("5");
        }
        "5"
    } else if d == 6 {
        proof {
            reveal_strlit("6");
        }
        "6"
    } else if d == 7 {
        proof {
            reveal_strlit("7");
        }
        "7"
    } else if d == 8 {
        proof {
            reveal_strlit("8");
        }
        "8"
    } else {
        proof {
            reveal_strlit("9");
        }
        "9"
    }
}

/// Writes `v` in its canonical decimal form — the same text the store
/// keeps for a numeric field — which parses back as exactly `v`.
pub fn format_i64(v: i64) -> (s: String)
    ensures
        s@ == i64_dec_chars(v),
        parse_i64_spec(s@) == Some(v as int),
{
    proof {
        lemma_format_parse(v);
    }
    let neg = v < 0;
    let mut m: u64 = if v < 0 {
        if v == i64::MIN {
            9223372036854775808u64
        } else {
            (-v) as u64
        }
    } else {
        v as u64
    };
    let ghost m0 = m as nat;
    let mut s = String::new();
    if neg {
        s.append("-");
        proof {
            reveal_strlit("-");
            assert("-"@ =~= seq!['-']);
        }
    }
    let ghost sign: Seq<char> = if neg {
        seq!['-']
    } else {
        Seq::empty()
    };
    if m == 0 {
        s.append("0");
        proof {
            reveal_strlit("0");
            assert(s@ =~= i64_dec_chars(v));
        }
        return s;
    }
    let mut ds: Vec<u64> = Vec::new();
    while m > 0
        invariant
            m <= m0,
            m0 > 0,
            forall|i: int| 0 <= i < ds@.len() ==> #[trigger] ds@[i] < 10,
            dec_digits(m0) == if m > 0 {
                dec_digits(m as nat) + ds@.map_values(|d: u64| digit_char(d as int)).reverse()
            } else {
                ds@.map_values(|d: u64| digit_char(d as int)).reverse()
            },
        decreases m,
    {
        let ghost old_m = m as nat;
        let ghost cs = ds@.map_values(|d: u64| digit_char(d as int));
        let d = m % 10;
        ds.push(d);
        m = m / 10;
        proof {
            let cs2 = ds@.map_values(|d: u64| digit_char(d as int));
            assert(cs2 =~= cs.push(digit_char(d as int)));
            assert(cs2.reverse() =~= seq![digit_char(d as int)] + cs.reverse());
            if old_m < 10 {
                assert(m == 0);
                assert(dec_digits(old_m) =~= seq![digit_char(d as int)]);
                assert(dec_digits(m0) =~= cs2.reverse());
            } else {
                assert(dec_digits(old_m) == dec_digits(old_m / 10).push(
                    digit_char((old_m % 10) as int),
                ));
                assert(dec_digits(old_m) + cs.reverse() =~= dec_digits(m as nat)
                    + cs2.reverse());
                assert(dec_digits(m0) =~= dec_digits(m as nat) + cs2.reverse());
            }
        }
    }
    let ghost cs = ds@.map_values(|d: u64| digit_char(d as int));
    let n = ds.len();
    let mut i: usize = n;
    proof {
        assert(cs.reverse().take(0) =~= Seq::<char>::empty());
    }
    while i > 0
        invariant
            i <= n,
            n == ds@.len(),
            forall|j: int| 0 <= j < ds@.len() ==> #[trigger] ds@[j] < 10,
            cs == ds@.map_values(|d: u64| digit_char(d as int)),
            s@ == sign + cs.reverse().take(n - i),
        decreases i,
    {
        i -= 1;
        s.append(digit_str(ds[i]));
        proof {
            assert(cs.reverse()[n - i - 1] == cs[i as int]);
            assert(cs.reverse().take(n - i) =~= cs.reverse().take(n - i - 1).push(
                cs[i as int],
            ));
        }
    }
    proof {
        assert(cs.reverse().take(n as int) =~= cs.reverse());
        assert(s@ =~= i64_dec_chars(v));
    }
    s
}

// ---------------------------------------------------------------------------
// The `null` literal
// ---------------------------------------------------------------------------

/// The four characters `null` in any mix of case.
pub open spec fn is_null_literal(s: Seq<char>) -> bool {
    s.len() == 4 && (s[0] == 'n' || s[0] == 'N') && (s[1] == 'u' || s[1] == 'U') && (s[2] == 'l'
        || s[2] == 'L') && (s[3] == 'l' || s[3] == 'L')
}

/// Exec check for the case-insensitive `null` literal.
pub(crate) fn is_null_str(s: &str) -> (r: bool)
    ensures
        r == is_null_literal(s@),
{
    if s.unicode_len() != 4 {
        return false;
    }
    let c0 = s.get_char(0);
    let c1 = s.get_char(1);
    let c2 = s.get_char(2);
    let c3 = s.get_char(3);
    (c0 == 'n' || c0 == 'N') && (c1 == 'u' || c1 == 'U') && (c2 == 'l' || c2 == 'L') && (c3 == 'l'
        || c3 == 'L')
}

} // verus!
