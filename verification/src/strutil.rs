//! Verified character- and string-level helpers.
//!
//! All parsing in this crate works over `Seq<char>` models; these
//! helpers bridge `String`/`&str` and `Vec<char>` and provide the
//! small spec-level text operations (trim, split, search, decimal
//! rendering) the rest of the library states its contracts with.

use vstd::prelude::*;

verus! {

// ---------------------------------------------------------------------------
// Decimal rendering
// ---------------------------------------------------------------------------

/// The decimal digit character for a value in 0..=9.
pub open spec fn dec_digit(d: int) -> char
    recommends
        0 <= d <= 9,
{
    (('0' as int) + d) as char
}

/// The decimal representation of a natural number, most significant digit first.
pub open spec fn dec_chars(n: nat) -> Seq<char>
    decreases n,
{
    if n < 10 {
        seq![dec_digit(n as int)]
    } else {
        dec_chars(n / 10).push(dec_digit((n % 10) as int))
    }
}

/// The decimal representation of an integer, with a leading '-' when negative.
pub open spec fn dec_chars_int(n: int) -> Seq<char> {
    if n < 0 {
        seq!['-'] + dec_chars((-n) as nat)
    } else {
        dec_chars(n as nat)
    }
}

proof fn lemma_reverse_push(s: Seq<char>, c: char)
    ensures
        s.push(c).reverse() =~= seq![c] + s.reverse(),
{
}

/// Renders `n` in decimal.
pub fn u64_to_string(n: u64) -> (r: String)
    ensures
        r@ == dec_chars(n as nat),
{
    let mut digits: Vec<char> = Vec::new();
    let mut m: u64 = n;
    loop
        invariant_except_break
            dec_chars(n as nat) =~= dec_chars(m as nat) + digits@.reverse(),
        ensures
            dec_chars(n as nat) =~= digits@.reverse(),
        decreases m,
    {
        let d: u64 = m % 10;
        let ghost old_digits = digits@;
        let ghost old_m = m;
        let c8: u8 = '0' as u8 + d as u8;
        digits.push(c8 as char);
        proof {
            assert(c8 as char == dec_digit(d as int));
            lemma_reverse_push(old_digits, dec_digit(d as int));
        }
        m = m / 10;
        if m == 0 {
            proof {
                assert(dec_chars(old_m as nat) =~= seq![dec_digit(d as int)]);
                assert(dec_chars(n as nat) =~= digits@.reverse());
            }
            break;
        }
        proof {
            assert(dec_chars(old_m as nat) =~= dec_chars(m as nat).push(dec_digit(d as int)));
            assert(dec_chars(n as nat) =~= dec_chars(m as nat) + digits@.reverse());
        }
    }
    let mut out: Vec<char> = Vec::new();
    let mut i: usize = digits.len();
    while i > 0
        invariant
            i <= digits.len(),
            out@ =~= digits@.reverse().take(digits@.len() - i),
        decreases i,
    {
        i = i - 1;
        out.push(digits[i]);
        proof {
            assert(out@ =~= digits@.reverse().take(digits@.len() - i));
        }
    }
    proof {
        assert(out@ =~= digits@.reverse());
    }
    string_from_chars(&out)
}

/// Renders `n` in decimal, with a sign when negative.
pub fn i64_to_string(n: i64) -> (r: String)
    ensures
        r@ == dec_chars_int(n as int),
{
    if n >= 0 {
        u64_to_string(n as u64)
    } else {
        let mag: u64 = if n == i64::MIN {
            9223372036854775808u64
        } else {
            (-n) as u64
        };
        let digits = u64_to_string(mag);
        let mut out = String::new();
        out.append("-");
        out.append(digits.as_str());
        proof {
            reveal_strlit("-");
            assert(out@ =~= dec_chars_int(n as int));
        }
        out
    }
}

/// Renders `n` in decimal.
pub fn u32_to_string(n: u32) -> (r: String)
    ensures
        r@ == dec_chars(n as nat),
{
    u64_to_string(n as u64)
}

// ---------------------------------------------------------------------------
// String <-> Vec<char>
// ---------------------------------------------------------------------------

/// Relies on `String: FromIterator<char>`: collecting chars builds the
/// string of exactly those characters.
#[verifier::external_body]
pub fn string_from_chars(v: &Vec<char>) -> (r: String)
    ensures
        r@ == v@,
{
    v.iter().collect()
}

/// Copies the characters of `s` into a vector.
pub fn chars_vec(s: &str) -> (r: Vec<char>)
    ensures
        r@ == s@,
{
    let n = s.unicode_len();
    let mut v: Vec<char> = Vec::new();
    let mut i: usize = 0;
    while i < n
        invariant
            n == s@.len(),
            i <= n,
            v@ =~= s@.take(i as int),
        decreases n - i,
    {
        v.push(s.get_char(i));
        i = i + 1;
    }
    proof {
        assert(v@ =~= s@);
    }
    v
}

/// Builds a string from a range of a character vector.
pub fn string_of_range(v: &Vec<char>, from: usize, to: usize) -> (r: String)
    requires
        from <= to <= v@.len(),
    ensures
        r@ == v@.subrange(from as int, to as int),
{
    let mut out: Vec<char> = Vec::new();
    let mut i: usize = from;
    while i < to
        invariant
            from <= i <= to <= v@.len(),
            out@ =~= v@.subrange(from as int, i as int),
        decreases to - i,
    {
        out.push(v[i]);
        i = i + 1;
    }
    string_from_chars(&out)
}

// ---------------------------------------------------------------------------
// ASCII case folding
// ---------------------------------------------------------------------------

/// ASCII lower-casing of a single character.
pub open spec fn lower_char(c: char) -> char {
    if 'A' <= c <= 'Z' {
        ((c as int) + 32) as char
    } else {
        c
    }
}

/// ASCII lower-casing of a character sequence.
pub open spec fn lower_seq(s: Seq<char>) -> Seq<char> {
    s.map_values(|c: char| lower_char(c))
}

/// Lower-cases the ASCII letters of `v`.
pub fn ascii_lower(v: &Vec<char>) -> (r: Vec<char>)
    ensures
        r@ == lower_seq(v@),
{
    let mut out: Vec<char> = Vec::new();
    let mut i: usize = 0;
    while i < v.len()
        invariant
            i <= v@.len(),
            out@ =~= v@.take(i as int).map_values(|c: char| lower_char(c)),
        decreases v@.len() - i,
    {
        let c = v[i];
        if 'A' <= c && c <= 'Z' {
            let lc: char = (((c as u32) + 32) as u8) as char;
            proof {
                assert(lc == lower_char(c));
            }
            out.push(lc);
        } else {
            out.push(c);
        }
        i = i + 1;
        proof {
            assert(out@ =~= v@.take(i as int).map_values(|c: char| lower_char(c)));
        }
    }
    proof {
        assert(v@.take(v@.len() as int) =~= v@);
    }
    out
}

// ---------------------------------------------------------------------------
// Search
// ---------------------------------------------------------------------------

/// Whether `needle` occurs as a contiguous subsequence of `hay`.
pub open spec fn contains_seq(hay: Seq<char>, needle: Seq<char>) -> bool {
    exists|i: int|
        0 <= i && i + needle.len() <= hay.len() && #[trigger] hay.subrange(i, i + needle.len())
            =~= needle
}

/// Whether `hay` starts with `needle`.
pub open spec fn starts_with_seq(hay: Seq<char>, needle: Seq<char>) -> bool {
    needle.len() <= hay.len() && hay.subrange(0, needle.len() as int) =~= needle
}

pub fn match_at(hay: &Vec<char>, needle: &Vec<char>, at: usize) -> (b: bool)
    requires
        at + needle@.len() <= hay@.len(),
    ensures
        b == (hay@.subrange(at as int, at + needle@.len()) =~= needle@),
{
    let hn = hay.len();
    let mut j: usize = 0;
    while j < needle.len()
        invariant
            hn == hay@.len(),
            at + needle@.len() <= hay@.len(),
            j <= needle@.len(),
            forall|k: int| 0 <= k < j ==> hay@[at + k] == needle@[k],
        decreases needle@.len() - j,
    {
        if hay[at + j] != needle[j] {
            proof {
                assert(hay@.subrange(at as int, at + needle@.len())[j as int] != needle@[j as int]);
            }
            return false;
        }
        j = j + 1;
    }
    proof {
        assert forall|k: int| 0 <= k < needle@.len() implies hay@.subrange(
            at as int,
            at + needle@.len(),
        )[k] == needle@[k] by {}
    }
    true
}

/// Substring search over character vectors.
pub fn contains_sub(hay: &Vec<char>, needle: &Vec<char>) -> (b: bool)
    ensures
        b == contains_seq(hay@, needle@),
{
    if needle.len() > hay.len() {
        return false;
    }
    if needle.len() == 0 {
        proof {
            let w: int = 0;
            assert(hay@.subrange(w, w + needle@.len()) =~= needle@);
            assert(contains_seq(hay@, needle@));
        }
        return true;
    }
    let last = hay.len() - needle.len();
    let mut i: usize = 0;
    loop
        invariant
            1 <= needle@.len() <= hay@.len(),
            hay@.len() <= usize::MAX,
            last == hay@.len() - needle@.len(),
            i <= last + 1,
            forall|k: int|
                0 <= k < i ==> !(#[trigger] hay@.subrange(k, k + needle@.len()) =~= needle@),
        decreases last + 1 - i,
    {
        if i > last {
            return false;
        }
        if match_at(hay, needle, i) {
            return true;
        }
        i = i + 1;
    }
}

/// Prefix test over character vectors.
pub fn starts_with_sub(hay: &Vec<char>, needle: &Vec<char>) -> (b: bool)
    ensures
        b == starts_with_seq(hay@, needle@),
{
    if needle.len() > hay.len() {
        return false;
    }
    match_at(hay, needle, 0)
}

/// The first index at which `c` occurs in `s`, if any.
pub open spec fn find_char(s: Seq<char>, c: char) -> Option<int>
    decreases s.len(),
{
    if s.len() == 0 {
        None
    } else if s[0] == c {
        Some(0int)
    } else {
        match find_char(s.drop_first(), c) {
            Some(i) => Some(i + 1),
            None => None,
        }
    }
}

/// `find_char` finds the first occurrence.
pub proof fn lemma_find_char(s: Seq<char>, c: char)
    ensures
        match find_char(s, c) {
            Some(i) => 0 <= i < s.len() && s[i] == c && forall|k: int| 0 <= k < i ==> s[k] != c,
            None => forall|k: int| 0 <= k < s.len() ==> s[k] != c,
        },
    decreases s.len(),
{
    if s.len() > 0 && s[0] != c {
        lemma_find_char(s.drop_first(), c);
        assert(forall|k: int| 1 <= k < s.len() ==> s.drop_first()[k - 1] == s[k]);
        match find_char(s.drop_first(), c) {
            Some(i) => {
                assert(s[i + 1] == s.drop_first()[i]);
            },
            None => {},
        }
    }
}

/// Finds the first occurrence of `c` in `v[from..]`.
pub fn index_of_from(v: &Vec<char>, c: char, from: usize) -> (r: Option<usize>)
    requires
        from <= v@.len(),
    ensures
        match r {
            Some(i) => from <= i < v@.len() && v@[i as int] == c && forall|k: int|
                from <= k < i ==> v@[k] != c,
            None => forall|k: int| from <= k < v@.len() ==> v@[k] != c,
        },
{
    let mut i: usize = from;
    while i < v.len()
        invariant
            from <= i <= v@.len(),
            forall|k: int| from <= k < i ==> v@[k] != c,
        decreases v@.len() - i,
    {
        if v[i] == c {
            return Some(i);
        }
        i = i + 1;
    }
    None
}

// ---------------------------------------------------------------------------
// Trim
// ---------------------------------------------------------------------------

/// ASCII whitespace, as this library trims it.
pub open spec fn is_space(c: char) -> bool {
    c == ' ' || c == '\t' || c == '\n' || c == '\r'
}

/// Index of the first non-space character (the length if all spaces).
pub open spec fn trim_start_idx(s: Seq<char>) -> int
    decreases s.len(),
{
    if s.len() == 0 {
        0
    } else if is_space(s[0]) {
        1 + trim_start_idx(s.drop_first())
    } else {
        0
    }
}

/// Index just after the last non-space character (0 if all spaces).
pub open spec fn trim_end_idx(s: Seq<char>) -> int
    decreases s.len(),
{
    if s.len() == 0 {
        0
    } else if is_space(s.last()) {
        trim_end_idx(s.drop_last())
    } else {
        s.len() as int
    }
}

/// `s` with leading and trailing ASCII whitespace removed.
pub open spec fn trim_seq(s: Seq<char>) -> Seq<char> {
    let t = s.skip(trim_start_idx(s));
    t.take(trim_end_idx(t))
}

proof fn lemma_trim_start_char(s: Seq<char>, i: int)
    requires
        0 <= i <= s.len(),
        forall|k: int| 0 <= k < i ==> is_space(s[k]),
        i < s.len() ==> !is_space(s[i]),
    ensures
        trim_start_idx(s) == i,
    decreases s.len(),
{
    if s.len() == 0 {
    } else if is_space(s[0]) {
        assert(i != 0);
        let t = s.drop_first();
        assert forall|k: int| 0 <= k < i - 1 implies is_space(t[k]) by {
            assert(t[k] == s[k + 1]);
        }
        assert(i - 1 < t.len() ==> !is_space(t[i - 1])) by {
            if i - 1 < t.len() {
                assert(t[i - 1] == s[i]);
            }
        }
        lemma_trim_start_char(t, i - 1);
    } else {
        assert(i == 0) by {
            if i > 0 {
                assert(is_space(s[0]));
            }
        }
    }
}

proof fn lemma_trim_end_char(s: Seq<char>, j: int)
    requires
        0 <= j <= s.len(),
        forall|k: int| j <= k < s.len() ==> is_space(s[k]),
        j > 0 ==> !is_space(s[j - 1]),
    ensures
        trim_end_idx(s) == j,
    decreases s.len(),
{
    if s.len() == 0 {
    } else if is_space(s.last()) {
        assert(j != s.len());
        let t = s.drop_last();
        assert forall|k: int| j <= k < t.len() implies is_space(t[k]) by {
            assert(t[k] == s[k]);
        }
        assert(j > 0 ==> !is_space(t[j - 1])) by {
            if j > 0 {
                assert(t[j - 1] == s[j - 1]);
            }
        }
        lemma_trim_end_char(t, j);
    } else {
        assert(j == s.len()) by {
            if j < s.len() {
                assert(is_space(s[s.len() - 1]));
            }
        }
    }
}

/// Computes the trimmed range `[from, to)` of `v[lo..hi]`.
pub fn trim_range(v: &Vec<char>, lo: usize, hi: usize) -> (r: (usize, usize))
    requires
        lo <= hi <= v@.len(),
    ensures
        lo <= r.0 <= r.1 <= hi,
        v@.subrange(r.0 as int, r.1 as int) =~= trim_seq(v@.subrange(lo as int, hi as int)),
{
    let ghost s = v@.subrange(lo as int, hi as int);
    let mut a: usize = lo;
    while a < hi && (v[a] == ' ' || v[a] == '\t' || v[a] == '\n' || v[a] == '\r')
        invariant
            lo <= a <= hi <= v@.len(),
            s =~= v@.subrange(lo as int, hi as int),
            forall|k: int| 0 <= k < a - lo ==> is_space(s[k]),
        decreases hi - a,
    {
        proof {
            assert(s[a - lo] == v@[a as int]);
        }
        a = a + 1;
    }
    proof {
        if a < hi {
            assert(s[a - lo] == v@[a as int]);
        }
        lemma_trim_start_char(s, a - lo);
    }
    let ghost t = s.skip(a - lo);
    let mut b: usize = hi;
    while b > a && (v[b - 1] == ' ' || v[b - 1] == '\t' || v[b - 1] == '\n' || v[b - 1] == '\r')
        invariant
            lo <= a <= b <= hi <= v@.len(),
            s =~= v@.subrange(lo as int, hi as int),
            forall|k: int| b - lo <= k < s.len() ==> is_space(s[k]),
        decreases b,
    {
        proof {
            assert(s[b - lo - 1] == v@[b - 1int]);
        }
        b = b - 1;
    }
    proof {
        assert(t =~= v@.subrange(a as int, hi as int));
        if b > a {
            assert(s[b - lo - 1] == v@[b - 1int]);
            assert(!is_space(s[b - lo - 1]));
            assert forall|k: int| b - a <= k < t.len() implies is_space(t[k]) by {
                assert(t[k] == s[k + (a - lo)]);
            }
            assert(!is_space(t[b - a - 1])) by {
                assert(t[b - a - 1] == s[b - lo - 1]);
            }
            lemma_trim_end_char(t, b - a);
        } else {
            assert(b == a);
            if a < hi {
                assert(!is_space(s[a - lo]));
                assert(is_space(s[b - lo]));
                assert(false);
            }
            assert(t.len() == 0);
            lemma_trim_end_char(t, 0);
        }
        assert(v@.subrange(a as int, b as int) =~= t.take(b - a));
    }
    (a, b)
}

/// Trims a whole vector, returning the trimmed copy.
pub fn trim_vec(v: &Vec<char>) -> (r: Vec<char>)
    ensures
        r@ =~= trim_seq(v@),
{
    let (a, b) = trim_range(v, 0, v.len());
    let mut out: Vec<char> = Vec::new();
    let mut i: usize = a;
    while i < b
        invariant
            a <= i <= b <= v@.len(),
            out@ =~= v@.subrange(a as int, i as int),
        decreases b - i,
    {
        out.push(v[i]);
        i = i + 1;
    }
    proof {
        assert(v@.subrange(0, v@.len() as int) =~= v@);
    }
    out
}

// ---------------------------------------------------------------------------
// Split
// ---------------------------------------------------------------------------

/// `s` split at every occurrence of `sep`, keeping empty pieces,
/// as `str::split` does.
pub open spec fn split_seq(s: Seq<char>, sep: char) -> Seq<Seq<char>>
    decreases s.len(),
    via split_seq_decreases
{
    match find_char(s, sep) {
        Some(i) => seq![s.take(i)] + split_seq(s.skip(i + 1), sep),
        None => seq![s],
    }
}

#[via_fn]
proof fn split_seq_decreases(s: Seq<char>, sep: char) {
    lemma_find_char(s, sep);
}

/// A split always has at least one piece.
pub proof fn lemma_split_nonempty(s: Seq<char>, sep: char)
    ensures
        split_seq(s, sep).len() >= 1,
    decreases s.len(),
{
    lemma_find_char(s, sep);
    match find_char(s, sep) {
        Some(i) => {},
        None => {},
    }
}

/// Splits `v` at every `sep`, keeping empty pieces.
pub fn split_char(v: &Vec<char>, sep: char) -> (r: Vec<Vec<char>>)
    ensures
        r.deep_view() =~= split_seq(v@, sep),
    decreases v@.len(),
{
    let n = v.len();
    let mut out: Vec<Vec<char>> = Vec::new();
    let mut start: usize = 0;
    let ghost mut rest = v@;
    loop
        invariant
            n == v@.len(),
            start <= v@.len(),
            rest =~= v@.skip(start as int),
            split_seq(v@, sep) =~= out.deep_view() + split_seq(rest, sep),
        decreases v@.len() - start,
    {
        match index_of_from(v, sep, start) {
            Some(i) => {
                proof {
                    assert forall|k: int| 0 <= k < i - start implies rest[k] != sep by {
                        assert(rest[k] == v@[start + k]);
                    }
                    assert(rest[i - start] == v@[i as int]);
                    lemma_find_char(rest, sep);
                    lemma_find_char_first(rest, sep, i - start);
                }
                let piece = string_range_vec(v, start, i);
                let ghost old_out = out.deep_view();
                let ghost old_rest = rest;
                out.push(piece);
                proof {
                    assert(out.deep_view() =~= old_out + seq![piece@]) by {
                        assert forall|k: int| 0 <= k < out.deep_view().len() implies out.deep_view()[k]
                            == (old_out + seq![piece@])[k] by {
                            assert(out.deep_view()[k] == out@[k].deep_view());
                        }
                    }
                    assert(piece@ =~= old_rest.take(i - start));
                }
                let ghost old_start = start as int;
                start = i + 1;
                proof {
                    rest = v@.skip(start as int);
                    assert(old_rest.skip(i - old_start + 1) =~= rest);
                    assert(split_seq(old_rest, sep) =~= seq![old_rest.take(i - old_start)]
                        + split_seq(rest, sep));
                    assert(split_seq(v@, sep) =~= out.deep_view() + split_seq(rest, sep));
                }
            },
            None => {
                proof {
                    assert forall|k: int| 0 <= k < rest.len() implies rest[k] != sep by {
                        assert(rest[k] == v@[start + k]);
                    }
                    lemma_find_char(rest, sep);
                    lemma_find_char_none(rest, sep);
                }
                let piece = string_range_vec(v, start, n);
                let ghost old_out = out.deep_view();
                out.push(piece);
                proof {
                    assert(piece@ =~= rest);
                    assert(out.deep_view() =~= old_out + seq![piece@]) by {
                        assert forall|k: int| 0 <= k < out.deep_view().len() implies out.deep_view()[k]
                            == (old_out + seq![piece@])[k] by {
                            assert(out.deep_view()[k] == out@[k].deep_view());
                        }
                    }
                    assert(split_seq(rest, sep) =~= seq![rest]);
                }
                return out;
            },
        }
    }
}

/// If `s[i] == c` and nothing earlier matches, `find_char` returns `i`.
proof fn lemma_find_char_first(s: Seq<char>, c: char, i: int)
    requires
        0 <= i < s.len(),
        s[i] == c,
        forall|k: int| 0 <= k < i ==> s[k] != c,
    ensures
        find_char(s, c) == Some(i),
{
    lemma_find_char(s, c);
    match find_char(s, c) {
        Some(j) => {
            if j < i {
                assert(s[j] != c);
            }
            if j > i {
                assert(s[i] != c);
            }
        },
        None => {
            assert(s[i] != c);
        },
    }
}

/// If no character matches, `find_char` returns `None`.
proof fn lemma_find_char_none(s: Seq<char>, c: char)
    requires
        forall|k: int| 0 <= k < s.len() ==> s[k] != c,
    ensures
        find_char(s, c) is None,
{
    lemma_find_char(s, c);
    match find_char(s, c) {
        Some(j) => {
            assert(s[j] != c);
        },
        None => {},
    }
}

/// Copies `v[from..to]` into a fresh vector.
pub fn string_range_vec(v: &Vec<char>, from: usize, to: usize) -> (r: Vec<char>)
    requires
        from <= to <= v@.len(),
    ensures
        r@ =~= v@.subrange(from as int, to as int),
{
    let mut out: Vec<char> = Vec::new();
    let mut i: usize = from;
    while i < to
        invariant
            from <= i <= to <= v@.len(),
            out@ =~= v@.subrange(from as int, i as int),
        decreases to - i,
    {
        out.push(v[i]);
        i = i + 1;
    }
    out
}

// ---------------------------------------------------------------------------
// Digit parsing
// ---------------------------------------------------------------------------

/// Whether `c` is an ASCII decimal digit.
pub open spec fn is_digit(c: char) -> bool {
    '0' <= c <= '9'
}

/// Value of a digit character.
pub open spec fn digit_val(c: char) -> int {
    (c as int) - ('0' as int)
}

/// Length of the run of digits at the front of `s`.
pub open spec fn digit_run_len(s: Seq<char>) -> int
    decreases s.len(),
{
    if s.len() == 0 || !is_digit(s[0]) {
        0
    } else {
        1 + digit_run_len(s.drop_first())
    }
}

/// Value of the digit sequence `s` (all of `s` must be digits).
pub open spec fn digits_value(s: Seq<char>) -> int
    decreases s.len(),
{
    if s.len() == 0 {
        0
    } else {
        digits_value(s.drop_last()) * 10 + digit_val(s.last())
    }
}

pub proof fn lemma_digit_run(s: Seq<char>)
    ensures
        0 <= digit_run_len(s) <= s.len(),
        forall|k: int| 0 <= k < digit_run_len(s) ==> is_digit(s[k]),
        digit_run_len(s) < s.len() ==> !is_digit(s[digit_run_len(s)]),
    decreases s.len(),
{
    if s.len() > 0 && is_digit(s[0]) {
        lemma_digit_run(s.drop_first());
        assert forall|k: int| 0 <= k < digit_run_len(s) implies is_digit(s[k]) by {
            if k > 0 {
                assert(s.drop_first()[k - 1] == s[k]);
            }
        }
    }
}

/// Parses the run of decimal digits starting at `from`.  Returns the
/// parsed value and the index just after the run; `None` for the value
/// when the run is empty or the value exceeds `u32::MAX`.
pub fn parse_u32_run(v: &Vec<char>, from: usize) -> (r: (Option<u32>, usize))
    requires
        from <= v@.len(),
    ensures
        r.1 == from + digit_run_len(v@.skip(from as int)),
        from <= r.1 <= v@.len(),
        ({
            let run = v@.subrange(from as int, r.1 as int);
            match r.0 {
                Some(x) => run.len() > 0 && x == digits_value(run) && digits_value(run) <= u32::MAX,
                None => run.len() == 0 || digits_value(run) > u32::MAX,
            }
        }),
{
    let ghost s = v@.skip(from as int);
    proof {
        lemma_digit_run(s);
    }
    let mut i: usize = from;
    let mut val: u64 = 0;
    let mut overflow: bool = false;
    while i < v.len() && '0' <= v[i] && v[i] <= '9'
        invariant
            from <= i <= v@.len(),
            s =~= v@.skip(from as int),
            i - from <= digit_run_len(s),
            forall|k: int| 0 <= k < i - from ==> is_digit(s[k]),
            !overflow ==> val == digits_value(v@.subrange(from as int, i as int)) && val <= u32::MAX,
            overflow ==> digits_value(v@.subrange(from as int, i as int)) > u32::MAX,
        decreases v@.len() - i,
    {
        let c = v[i];
        proof {
            assert(s[i - from] == v@[i as int]);
            lemma_digit_run_step(s, i - from);
        }
        let d: u64 = (c as u32 as u64) - 48;
        let ghost prev = v@.subrange(from as int, i as int);
        let ghost cur = v@.subrange(from as int, i + 1int);
        proof {
            assert(cur.drop_last() =~= prev);
            assert(cur.last() == v@[i as int]);
        }
        if !overflow {
            let nv: u64 = val * 10 + d;
            if nv > u32::MAX as u64 {
                overflow = true;
                proof {
                    assert(digits_value(cur) == digits_value(prev) * 10 + digit_val(v@[i as int]));
                }
            } else {
                val = nv;
            }
        } else {
            proof {
                assert(digits_value(cur) == digits_value(prev) * 10 + digit_val(v@[i as int]));
                assert(digit_val(v@[i as int]) >= 0);
                assert(digits_value(prev) * 10 > u32::MAX) by (nonlinear_arith)
                    requires digits_value(prev) > u32::MAX;
            }
        }
        i = i + 1;
    }
    proof {
        lemma_digit_run(s);
        if i < v.len() {
            assert(s[i - from] == v@[i as int]);
            assert(!is_digit(s[i - from]));
        }
        assert(i - from == digit_run_len(s));
    }
    if i == from || overflow {
        (None, i)
    } else {
        (Some(val as u32), i)
    }
}

proof fn lemma_digit_run_step(s: Seq<char>, i: int)
    requires
        0 <= i < s.len(),
        i <= digit_run_len(s),
        is_digit(s[i]),
    ensures
        i + 1 <= digit_run_len(s),
{
    lemma_digit_run(s);
    if i == digit_run_len(s) {
        assert(false);
    }
}

// ---------------------------------------------------------------------------
// Misc
// ---------------------------------------------------------------------------

/// Joins the views of `parts` with `sep` between them.
pub open spec fn join_seq(parts: Seq<Seq<char>>, sep: Seq<char>) -> Seq<char>
    decreases parts.len(),
{
    if parts.len() == 0 {
        Seq::empty()
    } else if parts.len() == 1 {
        parts[0]
    } else {
        parts[0] + sep + join_seq(parts.drop_first(), sep)
    }
}

/// Compares two character vectors.
pub fn chars_eq(a: &Vec<char>, b: &Vec<char>) -> (r: bool)
    ensures
        r == (a@ == b@),
{
    if a.len() != b.len() {
        proof {
            assert(a@ != b@);
        }
        return false;
    }
    let m = match_at(a, b, 0);
    proof {
        assert(a@.subrange(0, b@.len() as int) =~= a@);
        if a@ == b@ {
            assert(a@.subrange(0, b@.len() as int) =~= b@);
        }
    }
    m
}

/// Compares two string slices character by character.
pub fn str_eq(a: &str, b: &str) -> (r: bool)
    ensures
        r == (a@ == b@),
{
    let na = a.unicode_len();
    let nb = b.unicode_len();
    if na != nb {
        proof {
            assert(a@ != b@);
        }
        return false;
    }
    let mut i: usize = 0;
    while i < na
        invariant
            na == a@.len(),
            na == b@.len(),
            i <= na,
            forall|k: int| 0 <= k < i ==> a@[k] == b@[k],
        decreases na - i,
    {
        if a.get_char(i) != b.get_char(i) {
            return false;
        }
        i = i + 1;
    }
    proof {
        assert(a@ =~= b@);
    }
    true
}

/// Joins strings with a separator.
pub fn join_with(parts: &Vec<String>, sep: &str) -> (r: String)
    ensures
        r@ == join_seq(parts@.map_values(|s: String| s@), sep@),
{
    let ghost views = parts@.map_values(|s: String| s@);
    let mut out = String::new();
    let n = parts.len();
    let mut i: usize = 0;
    while i < n
        invariant
            n == parts@.len(),
            i <= n,
            views == parts@.map_values(|s: String| s@),
            i == 0 ==> out@ =~= Seq::<char>::empty(),
            i > 0 ==> out@ =~= join_seq(views.take(i as int), sep@),
        decreases n - i,
    {
        if i > 0 {
            out.append(sep);
        }
        out.append(parts[i].as_str());
        i = i + 1;
        proof {
            lemma_join_step(views, sep@, i as int);
            if i == 1 {
                assert(out@ =~= join_seq(views.take(1), sep@));
            } else {
                assert(out@ =~= join_seq(views.take(i as int), sep@));
            }
        }
    }
    proof {
        if n == 0 {
            assert(join_seq(views, sep@) =~= Seq::<char>::empty());
        } else {
            assert(views.take(n as int) =~= views);
        }
    }
    out
}

/// Joining one more part appends the separator and the part.
pub proof fn lemma_join_step(parts: Seq<Seq<char>>, sep: Seq<char>, i: int)
    requires
        1 <= i <= parts.len(),
    ensures
        i == 1 ==> join_seq(parts.take(1), sep) == parts[0],
        i > 1 ==> join_seq(parts.take(i), sep) =~= join_seq(parts.take(i - 1), sep) + sep + parts[i
            - 1],
    decreases i,
{
    if i == 1 {
        assert(parts.take(1).len() == 1);
        assert(join_seq(parts.take(1), sep) == parts.take(1)[0]);
    } else {
        lemma_join_last(parts.take(i), sep);
        assert(parts.take(i).drop_last() =~= parts.take(i - 1));
        assert(parts.take(i).last() == parts[i - 1]);
    }
}

/// Splitting off the last part of a join.
pub proof fn lemma_join_last(parts: Seq<Seq<char>>, sep: Seq<char>)
    requires
        parts.len() >= 2,
    ensures
        join_seq(parts, sep) =~= join_seq(parts.drop_last(), sep) + sep + parts.last(),
    decreases parts.len(),
{
    if parts.len() == 2 {
        assert(join_seq(parts, sep) == parts[0] + sep + join_seq(parts.drop_first(), sep));
        assert(parts.drop_first().len() == 1);
        assert(join_seq(parts.drop_first(), sep) == parts.drop_first()[0]);
        assert(parts.drop_last().len() == 1);
        assert(join_seq(parts.drop_last(), sep) == parts.drop_last()[0]);
        assert(parts.drop_last()[0] == parts[0]);
        assert(parts.drop_first()[0] == parts[1]);
    } else {
        lemma_join_last(parts.drop_first(), sep);
        assert(parts.drop_first().drop_last() =~= parts.drop_last().drop_first());
        assert(join_seq(parts, sep) == parts[0] + sep + join_seq(parts.drop_first(), sep));
        assert(join_seq(parts.drop_last(), sep) == parts.drop_last()[0] + sep + join_seq(
            parts.drop_last().drop_first(),
            sep,
        ));
        assert(parts.drop_last()[0] == parts[0]);
        assert(parts.drop_first().last() == parts.last());
    }
}

/// Copies a vector of strings; the copy equals the original.
pub fn clone_string_vec(v: &Vec<String>) -> (r: Vec<String>)
    ensures
        r@ == v@,
{
    let mut out: Vec<String> = Vec::new();
    let n = v.len();
    let mut i: usize = 0;
    while i < n
        invariant
            n == v@.len(),
            i <= n,
            out@ =~= v@.take(i as int),
        decreases n - i,
    {
        out.push(v[i].clone());
        i = i + 1;
    }
    proof {
        assert(v@.take(n as int) =~= v@);
    }
    out
}

/// Concatenates two strings.
pub fn concat2(a: &str, b: &str) -> (r: String)
    ensures
        r@ == a@ + b@,
{
    let mut out = String::new();
    out.append(a);
    out.append(b);
    proof {
        assert(out@ =~= a@ + b@);
    }
    out
}

/// Concatenates three strings.
pub fn concat3(a: &str, b: &str, c: &str) -> (r: String)
    ensures
        r@ == a@ + b@ + c@,
{
    let mut out = String::new();
    out.append(a);
    out.append(b);
    out.append(c);
    proof {
        assert(out@ =~= a@ + b@ + c@);
    }
    out
}

} // verus!
