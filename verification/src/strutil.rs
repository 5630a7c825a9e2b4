//! Verified text helpers shared by the parsers.
//!
//! The registry format and the control files are ASCII in practice,
//! so whitespace here means the ASCII whitespace characters.

use vstd::prelude::*;

verus! {

/// ASCII whitespace.
pub open spec fn is_space(c: char) -> bool {
    c == ' ' || c == '\t' || c == '\n' || c == '\r' || c == '\u{b}' || c == '\u{c}'
}

/// Runtime test for [`is_space`].
pub fn is_space_char(c: char) -> (r: bool)
    ensures
        r == is_space(c),
{
    c == ' ' || c == '\t' || c == '\n' || c == '\r' || c == '\u{b}' || c == '\u{c}'
}

/// Value of one hex digit, or -1 for a character that is none.
pub open spec fn hex_val_of(c: char) -> int {
    if '0' <= c && c <= '9' {
        c as int - '0' as int
    } else if 'a' <= c && c <= 'f' {
        c as int - 'a' as int + 10
    } else if 'A' <= c && c <= 'F' {
        c as int - 'A' as int + 10
    } else {
        -1
    }
}

/// Value of one digit in the given radix, or -1.
pub open spec fn digit_val(c: char, radix: int) -> int {
    let v = hex_val_of(c);
    if 0 <= v && v < radix { v } else { -1 }
}

/// Folds digits from the left onto an accumulator; -1 once any
/// character is no digit.
pub open spec fn num_fold(s: Seq<char>, radix: int, acc: int) -> int
    decreases s.len(),
{
    if s.len() == 0 {
        acc
    } else if digit_val(s[0], radix) < 0 {
        -1
    } else {
        num_fold(s.skip(1), radix, acc * radix + digit_val(s[0], radix))
    }
}

/// Value of a digit string, or -1 when it is empty or holds a
/// non-digit.
pub open spec fn num_val(s: Seq<char>, radix: int) -> int {
    if s.len() == 0 { -1 } else { num_fold(s, radix, 0) }
}

/// What the standard unsigned parsers accept: an optional leading
/// `+`, then at least one digit, and a value within the type.
pub open spec fn parse_uint_spec(s: Seq<char>, radix: int, max: int) -> Option<int> {
    let body = if s.len() >= 1 && s[0] == '+' { s.skip(1) } else { s };
    let v = num_val(body, radix);
    if 0 <= v && v <= max { Some(v) } else { None }
}

/// Splitting a sequence on a separator character, keeping empty
/// parts, as `str::split` does.
pub open spec fn split_char_spec(s: Seq<char>, sep: char) -> Seq<Seq<char>>
    decreases s.len(),
{
    if s.len() == 0 {
        seq![Seq::<char>::empty()]
    } else if s[0] == sep {
        seq![Seq::<char>::empty()] + split_char_spec(s.skip(1), sep)
    } else {
        let rest = split_char_spec(s.skip(1), sep);
        seq![seq![s[0]] + rest[0]] + rest.skip(1)
    }
}

/// A split always yields at least one part.
pub proof fn lemma_split_char_len(s: Seq<char>, sep: char)
    ensures
        split_char_spec(s, sep).len() >= 1,
    decreases s.len(),
{
    if s.len() != 0 && s[0] != sep {
        lemma_split_char_len(s.skip(1), sep);
    }
}

/// Unfolds a split at the first separator position.
pub proof fn lemma_split_char_at(s: Seq<char>, sep: char, i: int)
    requires
        0 <= i < s.len(),
        s[i] == sep,
        forall|j: int| 0 <= j < i ==> s[j] != sep,
    ensures
        split_char_spec(s, sep) == seq![s.take(i)] + split_char_spec(s.skip(i + 1), sep),
    decreases i,
{
    if i == 0 {
        assert(s.take(0) =~= Seq::<char>::empty());
        assert(split_char_spec(s, sep) =~= seq![s.take(0)] + split_char_spec(s.skip(1), sep));
    } else {
        let t = s.skip(1);
        assert forall|j: int| 0 <= j < i - 1 implies t[j] != sep by {
            assert(t[j] == s[j + 1]);
        }
        assert(t[i - 1] == s[i] && t[i - 1] == sep);
        lemma_split_char_at(t, sep, i - 1);
        lemma_split_char_len(t.skip(i), sep);
        assert(t.skip(i) =~= s.skip(i + 1));
        assert(t.take(i - 1) =~= s.take(i).skip(1));
        let rest = split_char_spec(t, sep);
        assert(rest == seq![t.take(i - 1)] + split_char_spec(s.skip(i + 1), sep));
        assert(seq![s[0]] + rest[0] =~= s.take(i));
        assert(rest.skip(1) =~= split_char_spec(s.skip(i + 1), sep));
        assert(split_char_spec(s, sep) =~= seq![s.take(i)] + split_char_spec(s.skip(i + 1), sep));
    }
}

/// A sequence without the separator splits into itself alone.
pub proof fn lemma_split_char_none(s: Seq<char>, sep: char)
    requires
        forall|j: int| 0 <= j < s.len() ==> s[j] != sep,
    ensures
        split_char_spec(s, sep) == seq![s],
    decreases s.len(),
{
    if s.len() == 0 {
        assert(split_char_spec(s, sep) =~~= seq![s]);
    } else {
        assert(s[0] != sep);
        let t = s.skip(1);
        assert forall|j: int| 0 <= j < t.len() implies t[j] != sep by {
            assert(t[j] == s[j + 1]);
        }
        lemma_split_char_none(t, sep);
        let rest = split_char_spec(t, sep);
        assert(rest == seq![t]);
        assert(seq![s[0]] + rest[0] =~= s);
        assert(rest.skip(1) =~= Seq::<Seq<char>>::empty());
        assert(split_char_spec(s, sep) =~~= seq![s]);
    }
}

/// First index of `sep` in `s`, if any.
pub fn find_char_in(s: &str, sep: char) -> (r: Option<usize>)
    ensures
        match r {
            Some(i) => i < s@.len() && s@[i as int] == sep
                && forall|j: int| 0 <= j < i ==> s@[j] != sep,
            None => forall|j: int| 0 <= j < s@.len() ==> s@[j] != sep,
        },
{
    let n = s.unicode_len();
    let mut i: usize = 0;
    while i < n
        invariant
            n == s@.len(),
            i <= n,
            forall|j: int| 0 <= j < i ==> s@[j] != sep,
        decreases n - i,
    {
        if s.get_char(i) == sep {
            return Some(i);
        }
        i = i + 1;
    }
    None
}

/// Splits on a separator character, keeping empty parts.
pub fn split_char_str(s: &str, sep: char) -> (r: Vec<String>)
    ensures
        r.deep_view() == split_char_spec(s@, sep),
    decreases s@.len(),
{
    match find_char_in(s, sep) {
        None => {
            proof {
                lemma_split_char_none(s@, sep);
            }
            let mut out: Vec<String> = Vec::new();
            out.push(s.to_owned());
            proof {
                assert(out.deep_view() =~= split_char_spec(s@, sep));
            }
            out
        },
        Some(i) => {
            let n = s.unicode_len();
            let head = s.substring_char(0, i);
            let rest = s.substring_char(i + 1, n);
            proof {
                lemma_split_char_at(s@, sep, i as int);
                assert(head@ =~= s@.take(i as int));
                assert(rest@ =~= s@.skip(i as int + 1));
            }
            let mut out: Vec<String> = Vec::new();
            out.push(head.to_owned());
            let mut tail = split_char_str(rest, sep);
            out.append(&mut tail);
            proof {
                assert(out.deep_view() =~= split_char_spec(s@, sep));
            }
            out
        },
    }
}

/// A line with a trailing carriage return loses it.
pub open spec fn strip_cr(s: Seq<char>) -> Seq<char> {
    if s.len() >= 1 && s[s.len() - 1] == '\r' { s.drop_last() } else { s }
}

/// What `str::lines` yields: parts split on newlines, the optional
/// final empty part dropped, and a carriage return stripped from the
/// end of every line that a newline closed.
pub open spec fn lines_spec(s: Seq<char>) -> Seq<Seq<char>> {
    if s.len() == 0 {
        Seq::<Seq<char>>::empty()
    } else {
        let parts = split_char_spec(s, '\n');
        let m = parts.len() as int;
        let kept = if parts[m - 1].len() == 0 { m - 1 } else { m };
        Seq::new(kept as nat, |k: int| if k < m - 1 { strip_cr(parts[k]) } else { parts[k] })
    }
}

/// Splits text into lines as `str::lines` does.
pub fn lines_str(s: &str) -> (r: Vec<String>)
    ensures
        r.deep_view() == lines_spec(s@),
{
    if s.unicode_len() == 0 {
        let out: Vec<String> = Vec::new();
        proof {
            assert(out.deep_view() =~= lines_spec(s@));
        }
        return out;
    }
    let parts = split_char_str(s, '\n');
    proof {
        lemma_split_char_len(s@, '\n');
    }
    let m = parts.len();
    let kept = if parts[m - 1].unicode_len() == 0 { m - 1 } else { m };
    let mut out: Vec<String> = Vec::new();
    let mut k: usize = 0;
    while k < kept
        invariant
            parts.deep_view() == split_char_spec(s@, '\n'),
            parts.len() == m,
            m >= 1,
            s@.len() > 0,
            kept == (if parts.deep_view()[m - 1].len() == 0 { m - 1 } else { m as int }),
            k <= kept,
            out.len() == k,
            forall|j: int| 0 <= j < k ==> out.deep_view()[j] == lines_spec(s@)[j],
        decreases kept - k,
    {
        let part = &parts[k];
        let ghost prev = out@;
        let ghost prev_dv = out.deep_view();
        proof {
            assert(part@ == parts.deep_view()[k as int]);
        }
        if k < m - 1 {
            let l = part.as_str().unicode_len();
            if l >= 1 && part.as_str().get_char(l - 1) == '\r' {
                let stripped = part.as_str().substring_char(0, l - 1);
                proof {
                    assert(stripped@ =~= strip_cr(parts.deep_view()[k as int]));
                }
                out.push(stripped.to_owned());
            } else {
                proof {
                    assert(part@ =~= strip_cr(parts.deep_view()[k as int]));
                }
                out.push(part.as_str().to_owned());
            }
        } else {
            out.push(part.as_str().to_owned());
        }
        proof {
            assert(out.deep_view()[k as int] == lines_spec(s@)[k as int]);
            assert forall|j: int| 0 <= j < k implies out.deep_view()[j] == lines_spec(s@)[j] by {
                assert(out@[j] == prev[j]);
                assert(prev_dv[j] == prev[j].deep_view());
                assert(out.deep_view()[j] == out@[j].deep_view());
            }
        }
        k = k + 1;
    }
    proof {
        assert(out.deep_view() =~= lines_spec(s@));
    }
    out
}

/// Splitting on two consecutive newlines, keeping empty parts, as
/// `str::split` with a two-character separator does.
pub open spec fn split_blocks_spec(s: Seq<char>) -> Seq<Seq<char>>
    decreases s.len(),
{
    if s.len() == 0 {
        seq![Seq::<char>::empty()]
    } else if s.len() >= 2 && s[0] == '\n' && s[1] == '\n' {
        seq![Seq::<char>::empty()] + split_blocks_spec(s.skip(2))
    } else {
        let rest = split_blocks_spec(s.skip(1));
        seq![seq![s[0]] + rest[0]] + rest.skip(1)
    }
}

/// A block split always yields at least one part.
pub proof fn lemma_split_blocks_len(s: Seq<char>)
    ensures
        split_blocks_spec(s).len() >= 1,
    decreases s.len(),
{
    if s.len() >= 2 && s[0] == '\n' && s[1] == '\n' {
    } else if s.len() != 0 {
        lemma_split_blocks_len(s.skip(1));
    }
}

/// Whether a double newline starts at position `j`.
pub open spec fn double_nl_at(s: Seq<char>, j: int) -> bool {
    0 <= j && j + 1 < s.len() && s[j] == '\n' && s[j + 1] == '\n'
}

/// Unfolds a block split at the first double newline.
pub proof fn lemma_split_blocks_at(s: Seq<char>, i: int)
    requires
        double_nl_at(s, i),
        forall|j: int| 0 <= j < i ==> !double_nl_at(s, j),
    ensures
        split_blocks_spec(s) == seq![s.take(i)] + split_blocks_spec(s.skip(i + 2)),
    decreases i,
{
    if i == 0 {
        assert(s.take(0) =~= Seq::<char>::empty());
        assert(split_blocks_spec(s) =~= seq![s.take(0)] + split_blocks_spec(s.skip(2)));
    } else {
        assert(!double_nl_at(s, 0));
        let t = s.skip(1);
        assert forall|j: int| 0 <= j < i - 1 implies !double_nl_at(t, j) by {
            assert(t[j] == s[j + 1] && t[j + 1] == s[j + 2]);
            assert(!double_nl_at(s, j + 1));
        }
        assert(t[i - 1] == s[i] && t[i] == s[i + 1]);
        assert(double_nl_at(t, i - 1));
        lemma_split_blocks_at(t, i - 1);
        lemma_split_blocks_len(t.skip(i + 1));
        assert(t.skip(i + 1) =~= s.skip(i + 2));
        assert(t.take(i - 1) =~= s.take(i).skip(1));
        let rest = split_blocks_spec(t);
        assert(rest == seq![t.take(i - 1)] + split_blocks_spec(s.skip(i + 2)));
        assert(seq![s[0]] + rest[0] =~= s.take(i));
        assert(rest.skip(1) =~= split_blocks_spec(s.skip(i + 2)));
        assert(split_blocks_spec(s) =~= seq![s.take(i)] + split_blocks_spec(s.skip(i + 2)));
    }
}

/// A sequence without a double newline is one block.
pub proof fn lemma_split_blocks_none(s: Seq<char>)
    requires
        forall|j: int| !double_nl_at(s, j),
    ensures
        split_blocks_spec(s) == seq![s],
    decreases s.len(),
{
    if s.len() == 0 {
        assert(split_blocks_spec(s) =~~= seq![s]);
    } else {
        assert(!double_nl_at(s, 0));
        let t = s.skip(1);
        assert forall|j: int| !double_nl_at(t, j) by {
            if 0 <= j && j + 1 < t.len() {
                assert(t[j] == s[j + 1] && t[j + 1] == s[j + 2]);
                assert(!double_nl_at(s, j + 1));
            }
        }
        lemma_split_blocks_none(t);
        let rest = split_blocks_spec(t);
        assert(rest == seq![t]);
        assert(seq![s[0]] + rest[0] =~= s);
        assert(rest.skip(1) =~= Seq::<Seq<char>>::empty());
        assert(split_blocks_spec(s) =~~= seq![s]);
    }
}

/// First position of a double newline, if any.
fn find_double_nl(s: &str) -> (r: Option<usize>)
    ensures
        match r {
            Some(i) => double_nl_at(s@, i as int)
                && forall|j: int| 0 <= j < i ==> !double_nl_at(s@, j),
            None => forall|j: int| !double_nl_at(s@, j),
        },
{
    let n = s.unicode_len();
    if n < 2 {
        return None;
    }
    let mut i: usize = 0;
    let mut prev = s.get_char(0);
    while i + 1 < n
        invariant
            n == s@.len(),
            n >= 2,
            i + 1 <= n,
            prev == s@[i as int],
            forall|j: int| 0 <= j < i ==> !double_nl_at(s@, j),
        decreases n - i,
    {
        let cur = s.get_char(i + 1);
        if prev == '\n' && cur == '\n' {
            return Some(i);
        }
        prev = cur;
        i = i + 1;
    }
    None
}

/// Splits on two consecutive newlines, keeping empty parts.
pub fn split_blocks_str(s: &str) -> (r: Vec<String>)
    ensures
        r.deep_view() == split_blocks_spec(s@),
    decreases s@.len(),
{
    match find_double_nl(s) {
        None => {
            proof {
                lemma_split_blocks_none(s@);
            }
            let mut out: Vec<String> = Vec::new();
            out.push(s.to_owned());
            proof {
                assert(out.deep_view() =~= split_blocks_spec(s@));
            }
            out
        },
        Some(i) => {
            let n = s.unicode_len();
            let head = s.substring_char(0, i);
            let rest = s.substring_char(i + 2, n);
            proof {
                lemma_split_blocks_at(s@, i as int);
                assert(head@ =~= s@.take(i as int));
                assert(rest@ =~= s@.skip(i as int + 2));
            }
            let mut out: Vec<String> = Vec::new();
            out.push(head.to_owned());
            let mut tail = split_blocks_str(rest);
            out.append(&mut tail);
            proof {
                assert(out.deep_view() =~= split_blocks_spec(s@));
            }
            out
        },
    }
}

/// Whether every character is whitespace.
pub open spec fn is_blank_spec(s: Seq<char>) -> bool {
    forall|j: int| 0 <= j < s.len() ==> is_space(#[trigger] s[j])
}

/// True when the text trims to nothing.
pub fn is_blank(s: &str) -> (r: bool)
    ensures
        r == is_blank_spec(s@),
{
    let n = s.unicode_len();
    let mut i: usize = 0;
    while i < n
        invariant
            n == s@.len(),
            i <= n,
            forall|j: int| 0 <= j < i ==> is_space(#[trigger] s@[j]),
        decreases n - i,
    {
        if !is_space_char(s.get_char(i)) {
            return false;
        }
        i = i + 1;
    }
    true
}

/// Character equality of two slices.
pub fn str_eq(a: &str, b: &str) -> (r: bool)
    ensures
        r == (a@ == b@),
{
    let n = a.unicode_len();
    if n != b.unicode_len() {
        return false;
    }
    let mut i: usize = 0;
    while i < n
        invariant
            n == a@.len(),
            n == b@.len(),
            i <= n,
            forall|j: int| 0 <= j < i ==> a@[j] == b@[j],
        decreases n - i,
    {
        if a.get_char(i) != b.get_char(i) {
            return false;
        }
        i = i + 1;
    }
    proof {
        assert(a@ =~= b@);
    }
    true
}

/// Character-prefix test.
pub fn str_starts_with(s: &str, prefix: &str) -> (r: bool)
    ensures
        r == prefix@.is_prefix_of(s@),
{
    let n = s.unicode_len();
    let p = prefix.unicode_len();
    if p > n {
        assert(!prefix@.is_prefix_of(s@));
        return false;
    }
    let mut i: usize = 0;
    while i < p
        invariant
            n == s@.len(),
            p == prefix@.len(),
            p <= n,
            i <= p,
            forall|j: int| 0 <= j < i ==> s@[j] == prefix@[j],
        decreases p - i,
    {
        if s.get_char(i) != prefix.get_char(i) {
            assert(!prefix@.is_prefix_of(s@));
            return false;
        }
        i = i + 1;
    }
    proof {
        assert(prefix@ =~= s@.take(p as int));
    }
    true
}

/// ASCII lower-casing of one character.
pub open spec fn lower_char(c: char) -> char {
    if 'A' <= c && c <= 'Z' { ((c as u32) + 32) as char } else { c }
}

/// ASCII lower-casing of a sequence.
pub open spec fn lower_seq(s: Seq<char>) -> Seq<char> {
    Seq::new(s.len(), |i: int| lower_char(s[i]))
}

/// Whether `s`, lower-cased ASCII-wise, equals `t`.
pub fn eq_ascii_lower(s: &str, t: &str) -> (r: bool)
    ensures
        r == (lower_seq(s@) == t@),
{
    let n = s.unicode_len();
    if n != t.unicode_len() {
        assert(lower_seq(s@).len() != t@.len());
        return false;
    }
    let mut i: usize = 0;
    while i < n
        invariant
            n == s@.len(),
            n == t@.len(),
            i <= n,
            forall|j: int| 0 <= j < i ==> lower_char(s@[j]) == t@[j],
        decreases n - i,
    {
        let c = s.get_char(i);
        let v = c as u32;
        let low = if v >= 65 && v <= 90 { ((v + 32) as u8) as char } else { c };
        proof {
            assert(low == lower_char(s@[i as int]));
        }
        if low != t.get_char(i) {
            assert(lower_char(s@[i as int]) != t@[i as int]);
            return false;
        }
        i = i + 1;
    }
    proof {
        assert(lower_seq(s@) =~= t@);
    }
    true
}

/// Leading whitespace dropped.
pub open spec fn trim_start_spec(s: Seq<char>) -> Seq<char>
    decreases s.len(),
{
    if s.len() > 0 && is_space(s[0]) { trim_start_spec(s.skip(1)) } else { s }
}

/// Trailing whitespace dropped.
pub open spec fn trim_end_spec(s: Seq<char>) -> Seq<char>
    decreases s.len(),
{
    if s.len() > 0 && is_space(s[s.len() - 1]) { trim_end_spec(s.drop_last()) } else { s }
}

/// Whitespace dropped from both ends.
pub open spec fn trim_spec(s: Seq<char>) -> Seq<char> {
    trim_end_spec(trim_start_spec(s))
}

proof fn lemma_trim_start_at(s: Seq<char>, i: int)
    requires
        0 <= i <= s.len(),
        forall|j: int| 0 <= j < i ==> is_space(#[trigger] s[j]),
        i < s.len() ==> !is_space(s[i]),
    ensures
        trim_start_spec(s) == s.skip(i),
    decreases i,
{
    if i == 0 {
        assert(s.skip(0) =~= s);
    } else {
        let t = s.skip(1);
        assert forall|j: int| 0 <= j < i - 1 implies is_space(#[trigger] t[j]) by {
            assert(t[j] == s[j + 1]);
        }
        if i - 1 < t.len() {
            assert(t[i - 1] == s[i]);
        }
        lemma_trim_start_at(t, i - 1);
        assert(t.skip(i - 1) =~= s.skip(i));
    }
}

proof fn lemma_trim_end_at(s: Seq<char>, i: int)
    requires
        0 <= i <= s.len(),
        forall|j: int| i <= j < s.len() ==> is_space(#[trigger] s[j]),
        i > 0 ==> !is_space(s[i - 1]),
    ensures
        trim_end_spec(s) == s.take(i),
    decreases s.len() - i,
{
    if i == s.len() {
        assert(s.take(i) =~= s);
        if s.len() > 0 && is_space(s[s.len() - 1]) {
            assert(false);
        }
    } else {
        let t = s.drop_last();
        assert(is_space(s[s.len() - 1]));
        assert forall|j: int| i <= j < t.len() implies is_space(#[trigger] t[j]) by {
            assert(t[j] == s[j]);
        }
        if i > 0 {
            assert(t[i - 1] == s[i - 1]);
        }
        lemma_trim_end_at(t, i);
        assert(t.take(i) =~= s.take(i));
    }
}

/// Drops ASCII whitespace from both ends.
pub fn trim_str<'a>(s: &'a str) -> (r: &'a str)
    ensures
        r@ == trim_spec(s@),
{
    let n = s.unicode_len();
    let mut start: usize = 0;
    while start < n && is_space_char(s.get_char(start))
        invariant
            n == s@.len(),
            start <= n,
            forall|j: int| 0 <= j < start ==> is_space(#[trigger] s@[j]),
        decreases n - start,
    {
        start = start + 1;
    }
    proof {
        lemma_trim_start_at(s@, start as int);
    }
    let mut end: usize = n;
    while end > start && is_space_char(s.get_char(end - 1))
        invariant
            n == s@.len(),
            start <= end <= n,
            forall|j: int| end <= j < n ==> is_space(#[trigger] s@[j]),
        decreases end,
    {
        end = end - 1;
    }
    let mid = s.substring_char(start, end);
    proof {
        let t = s@.skip(start as int);
        assert forall|j: int| (end - start) <= j < t.len() implies is_space(#[trigger] t[j]) by {
            assert(t[j] == s@[j + start]);
        }
        if end > start {
            assert(t[end - start - 1] == s@[end - 1]);
        }
        lemma_trim_end_at(t, end - start as int);
        assert(mid@ =~= t.take(end - start as int));
    }
    mid
}

/// Parses an unsigned integer with the given radix and bound, as the
/// standard library's unsigned `from_str` and `from_str_radix` do.
pub fn parse_uint(s: &str, radix: u32, max: u64) -> (r: Option<u64>)
    requires
        radix == 10 || radix == 16,
        max >= 15,
    ensures
        match parse_uint_spec(s@, radix as int, max as int) {
            Some(v) => r == Some(v as u64),
            None => r is None,
        },
{
    let n = s.unicode_len();
    let start: usize = if n >= 1 && s.get_char(0) == '+' { 1 } else { 0 };
    let ghost body = if start == 1 { s@.skip(1) } else { s@ };
    proof {
        if start == 0 {
            assert(body =~= s@.skip(0));
        }
    }
    if n == start {
        proof {
            assert(body.len() == 0);
        }
        return None;
    }
    let mut acc: u64 = 0;
    let mut over: bool = false;
    let ghost mut exact: int = 0;
    proof {
        assert(body.skip(0) =~= body);
    }
    let mut i: usize = start;
    while i < n
        invariant
            n == s@.len(),
            start <= i <= n,
            radix == 10 || radix == 16,
            max >= 15,
            body == (if start == 1 { s@.skip(1) } else { s@ }),
            start <= 1,
            (start == 1) == (s@.len() >= 1 && s@[0] == '+'),
            body.len() == n - start,
            forall|j: int| 0 <= j < body.len() ==> body[j] == s@[j + start],
            num_fold(body, radix as int, 0) == num_fold(
                body.skip(i - start as int),
                radix as int,
                exact,
            ),
            exact >= 0,
            !over ==> acc == exact && acc <= max,
            over ==> exact > max,
        decreases n - i,
    {
        let c = s.get_char(i);
        let dopt = crate::strutil::hex_digit_exec(c);
        let d: u64 = match dopt {
            Some(d) if (d as u32) < radix => d as u64,
            _ => {
                proof {
                    let rem = body.skip(i - start as int);
                    assert(rem[0] == body[i - start as int]);
                    assert(digit_val(rem[0], radix as int) < 0);
                    assert(num_fold(rem, radix as int, exact) == -1);
                    assert(num_val(body, radix as int) == -1);
                    assert(parse_uint_spec(s@, radix as int, max as int) is None);
                }
                return None;
            },
        };
        proof {
            let rem = body.skip(i - start as int);
            assert(rem[0] == body[i - start as int]);
            assert(digit_val(rem[0], radix as int) == d as int);
            assert(rem.skip(1) =~= body.skip(i + 1 - start as int));
            assert(num_fold(rem, radix as int, exact) == num_fold(
                body.skip(i + 1 - start as int),
                radix as int,
                exact * radix as int + d as int,
            ));
        }
        let ghost old_exact = exact;
        proof {
            exact = exact * radix as int + d as int;
            if radix == 10 {
                assert(exact == old_exact * 10 + d as int);
                assert(exact >= old_exact);
            } else {
                assert(exact == old_exact * 16 + d as int);
                assert(exact >= old_exact);
            }
        }
        if !over {
            let limit = (max - d) / (radix as u64);
            if acc > limit {
                over = true;
                proof {
                    let q = (max - d) as int / radix as int;
                    assert((max - d) as int == q * radix as int + (max - d) as int % radix as int);
                    if radix == 10 {
                        assert(acc as int * 10 >= (q + 1) * 10);
                        assert(exact > max);
                    } else {
                        assert(acc as int * 16 >= (q + 1) * 16);
                        assert(exact > max);
                    }
                }
            } else {
                proof {
                    let q = (max - d) as int / radix as int;
                    assert((max - d) as int == q * radix as int + (max - d) as int % radix as int);
                    if radix == 10 {
                        assert(acc as int * 10 <= q * 10);
                        assert(exact <= max);
                    } else {
                        assert(acc as int * 16 <= q * 16);
                        assert(exact <= max);
                    }
                }
                if radix == 10 {
                    acc = acc * 10 + d;
                } else {
                    acc = acc * 16 + d;
                }
            }
        } else {
            proof {
                if radix == 10 {
                    assert(exact == old_exact * 10 + d as int);
                    assert(old_exact * 10 >= old_exact) by (nonlinear_arith)
                        requires
                            old_exact >= 0,
                    ;
                } else {
                    assert(exact == old_exact * 16 + d as int);
                    assert(old_exact * 16 >= old_exact) by (nonlinear_arith)
                        requires
                            old_exact >= 0,
                    ;
                }
                assert(exact > max);
            }
        }
        i = i + 1;
    }
    proof {
        assert(body.skip(n - start as int) =~= Seq::<char>::empty());
        assert(num_fold(body, radix as int, 0) == exact);
    }
    if over {
        return None;
    }
    Some(acc)
}

/// Splitting at the first occurrence of a separator, as
/// `str::split_once` does.
pub open spec fn split_once_spec(s: Seq<char>, sep: char) -> Option<(Seq<char>, Seq<char>)>
    decreases s.len(),
{
    if s.len() == 0 {
        None
    } else if s[0] == sep {
        Some((Seq::<char>::empty(), s.skip(1)))
    } else {
        match split_once_spec(s.skip(1), sep) {
            None => None,
            Some((a, b)) => Some((seq![s[0]] + a, b)),
        }
    }
}

proof fn lemma_split_once_at(s: Seq<char>, sep: char, i: int)
    requires
        0 <= i < s.len(),
        s[i] == sep,
        forall|j: int| 0 <= j < i ==> s[j] != sep,
    ensures
        split_once_spec(s, sep) == Some((s.take(i), s.skip(i + 1))),
    decreases i,
{
    if i == 0 {
        assert(s.take(0) =~= Seq::<char>::empty());
    } else {
        let t = s.skip(1);
        assert forall|j: int| 0 <= j < i - 1 implies t[j] != sep by {
            assert(t[j] == s[j + 1]);
        }
        assert(t[i - 1] == s[i]);
        lemma_split_once_at(t, sep, i - 1);
        assert(t.skip(i) =~= s.skip(i + 1));
        assert(seq![s[0]] + t.take(i - 1) =~= s.take(i));
    }
}

proof fn lemma_split_once_none(s: Seq<char>, sep: char)
    requires
        forall|j: int| 0 <= j < s.len() ==> s[j] != sep,
    ensures
        split_once_spec(s, sep) is None,
    decreases s.len(),
{
    if s.len() != 0 {
        assert(s[0] != sep);
        let t = s.skip(1);
        assert forall|j: int| 0 <= j < t.len() implies t[j] != sep by {
            assert(t[j] == s[j + 1]);
        }
        lemma_split_once_none(t, sep);
    }
}

/// Splits at the first occurrence of the separator, if any.
pub fn split_once_char(s: &str, sep: char) -> (r: Option<(String, String)>)
    ensures
        match r {
            Some((a, b)) => split_once_spec(s@, sep) == Some((a@, b@)),
            None => split_once_spec(s@, sep) is None,
        },
{
    match find_char_in(s, sep) {
        None => {
            proof {
                lemma_split_once_none(s@, sep);
            }
            None
        },
        Some(i) => {
            let n = s.unicode_len();
            let head = s.substring_char(0, i);
            let rest = s.substring_char(i + 1, n);
            proof {
                lemma_split_once_at(s@, sep, i as int);
                assert(head@ =~= s@.take(i as int));
                assert(rest@ =~= s@.skip(i as int + 1));
            }
            Some((head.to_owned(), rest.to_owned()))
        },
    }
}

/// Splitting on runs of whitespace, as `str::split_whitespace` does
/// over ASCII text: no empty tokens.
pub open spec fn split_ws_spec(s: Seq<char>) -> Seq<Seq<char>>
    decreases s.len(),
{
    if s.len() == 0 {
        Seq::<Seq<char>>::empty()
    } else if is_space(s[0]) {
        split_ws_spec(s.skip(1))
    } else {
        let rest = split_ws_spec(s.skip(1));
        if s.len() >= 2 && !is_space(s[1]) {
            seq![seq![s[0]] + rest[0]] + rest.skip(1)
        } else {
            seq![seq![s[0]]] + rest
        }
    }
}

/// Leading whitespace does not change the token list.
proof fn lemma_ws_skip_spaces(s: Seq<char>, i: int)
    requires
        0 <= i <= s.len(),
        forall|j: int| 0 <= j < i ==> is_space(#[trigger] s[j]),
    ensures
        split_ws_spec(s) == split_ws_spec(s.skip(i)),
    decreases i,
{
    if i == 0 {
        assert(s.skip(0) =~= s);
    } else {
        assert(is_space(s[0]));
        let t = s.skip(1);
        assert forall|j: int| 0 <= j < i - 1 implies is_space(#[trigger] t[j]) by {
            assert(t[j] == s[j + 1]);
        }
        lemma_ws_skip_spaces(t, i - 1);
        assert(t.skip(i - 1) =~= s.skip(i));
    }
}

/// Unfolds the token list at a maximal non-space run.
proof fn lemma_ws_token(s: Seq<char>, k: int)
    requires
        1 <= k <= s.len(),
        forall|j: int| 0 <= j < k ==> !is_space(#[trigger] s[j]),
        k < s.len() ==> is_space(s[k]),
    ensures
        split_ws_spec(s) == seq![s.take(k)] + split_ws_spec(s.skip(k)),
    decreases k,
{
    assert(!is_space(s[0]));
    let rest = split_ws_spec(s.skip(1));
    if k == 1 {
        if s.len() >= 2 {
            assert(is_space(s[1]));
        }
        assert(s.take(1) =~= seq![s[0]]);
        assert(split_ws_spec(s) =~~= seq![s.take(1)] + split_ws_spec(s.skip(1)));
    } else {
        assert(!is_space(s[1]));
        let t = s.skip(1);
        assert forall|j: int| 0 <= j < k - 1 implies !is_space(#[trigger] t[j]) by {
            assert(t[j] == s[j + 1]);
        }
        if k - 1 < t.len() {
            assert(t[k - 1] == s[k]);
        }
        lemma_ws_token(t, k - 1);
        assert(t.skip(k - 1) =~= s.skip(k));
        assert(seq![s[0]] + t.take(k - 1) =~= s.take(k));
        assert(rest == seq![t.take(k - 1)] + split_ws_spec(s.skip(k)));
        assert(rest.skip(1) =~= split_ws_spec(s.skip(k)));
        assert(split_ws_spec(s) =~~= seq![s.take(k)] + split_ws_spec(s.skip(k)));
    }
}

/// Splits on runs of ASCII whitespace, dropping empty tokens.
pub fn split_ws_str(s: &str) -> (r: Vec<String>)
    ensures
        r.deep_view() == split_ws_spec(s@),
    decreases s@.len(),
{
    let n = s.unicode_len();
    let mut a: usize = 0;
    while a < n && is_space_char(s.get_char(a))
        invariant
            n == s@.len(),
            a <= n,
            forall|j: int| 0 <= j < a ==> is_space(#[trigger] s@[j]),
        decreases n - a,
    {
        a = a + 1;
    }
    proof {
        lemma_ws_skip_spaces(s@, a as int);
    }
    if a == n {
        let out: Vec<String> = Vec::new();
        proof {
            assert(s@.skip(n as int) =~= Seq::<char>::empty());
            assert(out.deep_view() =~= split_ws_spec(s@));
        }
        return out;
    }
    let mut b: usize = a + 1;
    while b < n && !is_space_char(s.get_char(b))
        invariant
            n == s@.len(),
            a < b <= n,
            forall|j: int| a <= j < b ==> !is_space(#[trigger] s@[j]),
            !is_space(s@[a as int]),
        decreases n - b,
    {
        b = b + 1;
    }
    let head = s.substring_char(a, b);
    let rest = s.substring_char(b, n);
    proof {
        let t = s@.skip(a as int);
        assert forall|j: int| 0 <= j < b - a implies !is_space(#[trigger] t[j]) by {
            assert(t[j] == s@[j + a]);
        }
        if b < n {
            assert(t[b - a as int] == s@[b as int]);
        }
        lemma_ws_token(t, b - a as int);
        assert(head@ =~= t.take(b - a as int));
        assert(rest@ =~= t.skip(b - a as int));
    }
    let mut out: Vec<String> = Vec::new();
    out.push(head.to_owned());
    let mut tail = split_ws_str(rest);
    out.append(&mut tail);
    proof {
        assert(out.deep_view() =~= split_ws_spec(s@));
    }
    out
}

/// The hex digit value of a character, if it is one.
pub fn hex_digit_exec(c: char) -> (r: Option<u8>)
    ensures
        hex_val_of(c) >= 0 ==> r == Some(hex_val_of(c) as u8),
        hex_val_of(c) < 0 ==> r is None,
{
    let v = c as u32;
    if v >= 48 && v <= 57 {
        Some((v - 48) as u8)
    } else if v >= 97 && v <= 102 {
        Some((v - 97 + 10) as u8)
    } else if v >= 65 && v <= 70 {
        Some((v - 65 + 10) as u8)
    } else {
        None
    }
}

} // verus!
