//! Character and string utilities shared by the crawl pipeline and the path
//! finder: prefix/suffix/substring tests, ASCII case folding, decimal
//! rendering and parsing of page ids, and separator joining for query text.
use vstd::prelude::*;

verus! {

/// Relies on `String::push`: appends the given character to the end of the
/// string.
pub assume_specification[ String::push ](s: &mut String, c: char)
    ensures
        final(s)@ == old(s)@.push(c),
;

pub open spec fn spec_starts_with(s: Seq<char>, p: Seq<char>) -> bool {
    p.len() <= s.len() && s.subrange(0, p.len() as int) == p
}

pub fn str_starts_with(s: &str, p: &str) -> (r: bool)
    ensures
        r == spec_starts_with(s@, p@),
{
    let s_len = s.unicode_len();
    let p_len = p.unicode_len();
    if p_len > s_len {
        return false;
    }
    let mut i: usize = 0;
    while i < p_len
        invariant
            i <= p_len <= s_len,
            s_len == s@.len(),
            p_len == p@.len(),
            forall|j: int| 0 <= j < i ==> s@[j] == p@[j],
        decreases p_len - i,
    {
        if s.get_char(i) != p.get_char(i) {
            assert(s@.subrange(0, p@.len() as int)[i as int] != p@[i as int]);
            return false;
        }
        i += 1;
    }
    assert(s@.subrange(0, p@.len() as int) =~= p@);
    true
}

pub open spec fn spec_ends_with(s: Seq<char>, p: Seq<char>) -> bool {
    p.len() <= s.len() && s.subrange(s.len() - p.len(), s.len() as int) == p
}

pub fn str_ends_with(s: &str, p: &str) -> (r: bool)
    ensures
        r == spec_ends_with(s@, p@),
{
    let s_len = s.unicode_len();
    let p_len = p.unicode_len();
    if p_len > s_len {
        return false;
    }
    let base = s_len - p_len;
    let mut i: usize = 0;
    while i < p_len
        invariant
            i <= p_len <= s_len,
            base == s_len - p_len,
            s_len == s@.len(),
            p_len == p@.len(),
            forall|j: int| 0 <= j < i ==> s@[base + j] == p@[j],
        decreases p_len - i,
    {
        if s.get_char(base + i) != p.get_char(i) {
            assert(s@.subrange(s@.len() - p@.len(), s@.len() as int)[i as int] != p@[i as int]);
            return false;
        }
        i += 1;
    }
    assert(s@.subrange(s@.len() - p@.len(), s@.len() as int) =~= p@);
    true
}

/// The needle `p` occurs in `s` starting at position `i`.
pub open spec fn spec_match_at(s: Seq<char>, p: Seq<char>, i: int) -> bool {
    0 <= i && i + p.len() <= s.len() && s.subrange(i, i + p.len()) == p
}

pub open spec fn spec_contains_sub(s: Seq<char>, p: Seq<char>) -> bool {
    exists|i: int| spec_match_at(s, p, i)
}

pub(crate) fn str_match_at(s: &str, p: &str, i: usize) -> (r: bool)
    requires
        i + p@.len() <= s@.len(),
    ensures
        r == spec_match_at(s@, p@, i as int),
{
    let s_len = s.unicode_len();
    let p_len = p.unicode_len();
    let mut j: usize = 0;
    while j < p_len
        invariant
            j <= p_len,
            p_len == p@.len(),
            s_len == s@.len(),
            i + p@.len() <= s@.len(),
            forall|k: int| 0 <= k < j ==> s@[i + k] == p@[k],
        decreases p_len - j,
    {
        if s.get_char(i + j) != p.get_char(j) {
            assert(s@.subrange(i as int, i + p@.len())[j as int] != p@[j as int]);
            return false;
        }
        j += 1;
    }
    assert(s@.subrange(i as int, i + p@.len()) =~= p@);
    true
}

pub fn str_contains_sub(s: &str, p: &str) -> (r: bool)
    ensures
        r == spec_contains_sub(s@, p@),
{
    let s_len = s.unicode_len();
    let p_len = p.unicode_len();
    if p_len > s_len {
        assert forall|i: int| !spec_match_at(s@, p@, i) by {}
        return false;
    }
    if p_len == 0 {
        assert(spec_match_at(s@, p@, 0)) by {
            assert(s@.subrange(0, 0) =~= p@);
        }
        return true;
    }
    let last = s_len - p_len;
    let mut i: usize = 0;
    while i <= last
        invariant
            i <= last + 1,
            last == s_len - p_len,
            s_len == s@.len(),
            p_len == p@.len(),
            1 <= p_len <= s_len,
            forall|k: int| 0 <= k < i ==> !spec_match_at(s@, p@, k),
        decreases last - i + 1,
    {
        if str_match_at(s, p, i) {
            return true;
        }
        i += 1;
    }
    assert forall|k: int| !spec_match_at(s@, p@, k) by {
        if 0 <= k <= last {
            assert(!spec_match_at(s@, p@, k));
        }
    }
    false
}

/// ASCII case folding of one character: the letters `A` through `Z` map to
/// their lower-case forms, every other character is unchanged.
pub open spec fn spec_lower_char(c: char) -> char {
    if 'A' <= c && c <= 'Z' {
        (((c as u8) + 32) as char)
    } else {
        c
    }
}

pub open spec fn spec_to_lower(s: Seq<char>) -> Seq<char> {
    s.map_values(|c: char| spec_lower_char(c))
}

pub fn char_to_lower(c: char) -> (r: char)
    ensures
        r == spec_lower_char(c),
{
    if 'A' <= c && c <= 'Z' {
        ((c as u8) + 32) as char
    } else {
        c
    }
}

pub fn str_to_lower(s: &str) -> (r: String)
    ensures
        r@ == spec_to_lower(s@),
{
    let len = s.unicode_len();
    let mut out = String::new();
    let mut i: usize = 0;
    while i < len
        invariant
            i <= len,
            len == s@.len(),
            out@ == spec_to_lower(s@.take(i as int)),
        decreases len - i,
    {
        out.push(char_to_lower(s.get_char(i)));
        assert(spec_to_lower(s@.take(i + 1)) =~= spec_to_lower(s@.take(i as int)).push(
            spec_lower_char(s@[i as int]),
        ));
        i += 1;
    }
    assert(s@.take(len as int) =~= s@);
    out
}

/// The decimal digit characters `0` through `9`.
pub open spec fn spec_digit_char(d: int) -> char {
    if d == 0 {
        '0'
    } else if d == 1 {
        '1'
    } else if d == 2 {
        '2'
    } else if d == 3 {
        '3'
    } else if d == 4 {
        '4'
    } else if d == 5 {
        '5'
    } else if d == 6 {
        '6'
    } else if d == 7 {
        '7'
    } else if d == 8 {
        '8'
    } else {
        '9'
    }
}

/// The usual decimal rendering of a nonnegative integer, without leading
/// zeros (except for zero itself).
pub open spec fn spec_decimal(n: int) -> Seq<char>
    decreases n,
{
    if n < 10 {
        seq![spec_digit_char(n)]
    } else {
        spec_decimal(n / 10) + seq![spec_digit_char(n % 10)]
    }
}

fn digit_char(d: usize) -> (r: char)
    requires
        d < 10,
    ensures
        r == spec_digit_char(d as int),
{
    if d == 0 {
        '0'
    } else if d == 1 {
        '1'
    } else if d == 2 {
        '2'
    } else if d == 3 {
        '3'
    } else if d == 4 {
        '4'
    } else if d == 5 {
        '5'
    } else if d == 6 {
        '6'
    } else if d == 7 {
        '7'
    } else if d == 8 {
        '8'
    } else {
        '9'
    }
}

pub fn usize_to_string(n: usize) -> (r: String)
    ensures
        r@ == spec_decimal(n as int),
    decreases n,
{
    if n < 10 {
        let mut s = String::new();
        s.push(digit_char(n));
        s
    } else {
        let mut s = usize_to_string(n / 10);
        s.push(digit_char(n % 10));
        s
    }
}

pub open spec fn spec_is_digit(c: char) -> bool {
    '0' <= c && c <= '9'
}

pub open spec fn spec_all_digits(s: Seq<char>) -> bool {
    forall|i: int| 0 <= i < s.len() ==> spec_is_digit(#[trigger] s[i])
}

pub open spec fn spec_digit_val(c: char) -> int {
    c as u32 - 48
}

/// The nonnegative integer denoted by a sequence of decimal digits (the
/// empty sequence denotes zero).
pub open spec fn spec_digits_val(s: Seq<char>) -> int
    decreases s.len(),
{
    if s.len() == 0 {
        0
    } else {
        spec_digits_val(s.drop_last()) * 10 + spec_digit_val(s.last())
    }
}

proof fn lemma_digits_val_nonneg(s: Seq<char>)
    requires
        spec_all_digits(s),
    ensures
        spec_digits_val(s) >= 0,
    decreases s.len(),
{
    if s.len() > 0 {
        assert(spec_all_digits(s.drop_last()));
        lemma_digits_val_nonneg(s.drop_last());
    }
}

/// A digit string's value is at least the value of any of its prefixes.
proof fn lemma_digits_val_prefix_le(s: Seq<char>, i: int)
    requires
        spec_all_digits(s),
        0 <= i <= s.len(),
    ensures
        spec_digits_val(s.take(i)) <= spec_digits_val(s),
    decreases s.len() - i,
{
    if i < s.len() {
        lemma_digits_val_prefix_le(s, i + 1);
        let t = s.take(i + 1);
        assert(t.drop_last() =~= s.take(i));
        assert(spec_all_digits(s.take(i)));
        lemma_digits_val_nonneg(s.take(i));
        assert(spec_digits_val(t) == spec_digits_val(s.take(i)) * 10 + spec_digit_val(s[i]));
        assert(spec_digit_val(s[i]) >= 0);
        assert(spec_digits_val(s.take(i)) * 10 >= spec_digits_val(s.take(i))) by (nonlinear_arith)
            requires
                spec_digits_val(s.take(i)) >= 0,
        ;
    } else {
        assert(s.take(i) =~= s);
    }
}

fn exec_is_digit(c: char) -> (r: bool)
    ensures
        r == spec_is_digit(c),
{
    '0' <= c && c <= '9'
}

/// Parses a nonempty all-digit string into a `usize`. Returns `None` exactly
/// when the string is empty, holds a non-digit character, or denotes a value
/// over `usize::MAX`.
pub fn parse_usize(s: &str) -> (r: Option<usize>)
    ensures
        match r {
            Some(n) => s@.len() > 0 && spec_all_digits(s@) && n == spec_digits_val(s@),
            None => s@.len() == 0 || !spec_all_digits(s@) || spec_digits_val(s@) > usize::MAX,
        },
{
    let len = s.unicode_len();
    if len == 0 {
        return None;
    }
    let mut acc: usize = 0;
    let mut i: usize = 0;
    while i < len
        invariant
            i <= len,
            len == s@.len(),
            spec_all_digits(s@.take(i as int)),
            acc == spec_digits_val(s@.take(i as int)),
        decreases len - i,
    {
        let c = s.get_char(i);
        if !exec_is_digit(c) {
            return None;
        }
        let d: usize = (c as u8 - 48) as usize;
        if acc > (usize::MAX - d) / 10 {
            proof {
                let t = s@.take(i + 1);
                assert(t.drop_last() =~= s@.take(i as int));
                assert(spec_all_digits(t));
                assert(spec_digits_val(t) == acc * 10 + d);
                assert(acc * 10 + d > usize::MAX) by (nonlinear_arith)
                    requires
                        acc > (usize::MAX - d) / 10,
                        0 <= d < 10,
                        acc >= 0,
                ;
                if spec_all_digits(s@) {
                    lemma_digits_val_prefix_le(s@, i + 1);
                }
            }
            return None;
        }
        proof {
            assert(acc * 10 + d <= usize::MAX) by (nonlinear_arith)
                requires
                    acc <= (usize::MAX - d) / 10,
                    0 <= d < 10,
                    acc >= 0,
            ;
            let t = s@.take(i + 1);
            assert(t.drop_last() =~= s@.take(i as int));
            assert(t.last() == s@[i as int]);
        }
        acc = acc * 10 + d;
        i += 1;
    }
    proof {
        assert(s@.take(len as int) =~= s@);
    }
    Some(acc)
}

/// Joining with a separator: the first part, then each further part preceded
/// by the separator.
pub open spec fn spec_join_rest(parts: Seq<Seq<char>>, sep: Seq<char>) -> Seq<char>
    decreases parts.len(),
{
    if parts.len() == 0 {
        Seq::empty()
    } else {
        sep + parts.first() + spec_join_rest(parts.drop_first(), sep)
    }
}

pub open spec fn spec_join(parts: Seq<Seq<char>>, sep: Seq<char>) -> Seq<char> {
    if parts.len() == 0 {
        Seq::empty()
    } else {
        parts.first() + spec_join_rest(parts.drop_first(), sep)
    }
}

proof fn lemma_join_rest_push(parts: Seq<Seq<char>>, sep: Seq<char>, x: Seq<char>)
    ensures
        spec_join_rest(parts.push(x), sep) == spec_join_rest(parts, sep) + sep + x,
    decreases parts.len(),
{
    if parts.len() == 0 {
        let p1 = parts.push(x);
        assert(p1.first() == x);
        assert(p1.drop_first() =~= Seq::<Seq<char>>::empty());
        assert(spec_join_rest(Seq::<Seq<char>>::empty(), sep) == Seq::<char>::empty());
        assert(spec_join_rest(p1, sep) == sep + p1.first() + spec_join_rest(
            p1.drop_first(),
            sep,
        ));
        assert(spec_join_rest(p1, sep) =~= sep + x);
        assert(spec_join_rest(parts, sep) + sep + x =~= sep + x);
    } else {
        assert(parts.push(x).drop_first() =~= parts.drop_first().push(x));
        assert(parts.push(x).first() == parts.first());
        lemma_join_rest_push(parts.drop_first(), sep, x);
        assert(spec_join_rest(parts.push(x), sep) =~= spec_join_rest(parts, sep) + sep + x);
    }
}

pub fn join_strings(parts: &Vec<String>, sep: &str) -> (r: String)
    ensures
        r@ == spec_join(parts@.map_values(|p: String| p@), sep@),
{
    let ghost view_parts = parts@.map_values(|p: String| p@);
    let mut out = String::new();
    if parts.len() == 0 {
        assert(out@ =~= spec_join(view_parts, sep@));
        return out;
    }
    out.append(parts[0].as_str());
    let mut i: usize = 1;
    while i < parts.len()
        invariant
            1 <= i <= parts.len(),
            view_parts == parts@.map_values(|p: String| p@),
            view_parts.len() == parts@.len(),
            out@ == view_parts.first() + spec_join_rest(view_parts.subrange(1, i as int), sep@),
        decreases parts.len() - i,
    {
        out.append(sep);
        out.append(parts[i].as_str());
        proof {
            assert(view_parts.subrange(1, i + 1) =~= view_parts.subrange(1, i as int).push(
                view_parts[i as int],
            ));
            lemma_join_rest_push(view_parts.subrange(1, i as int), sep@, view_parts[i as int]);
        }
        i += 1;
    }
    proof {
        assert(view_parts.subrange(1, view_parts.len() as int) =~= view_parts.drop_first());
    }
    out
}

} // verus!
