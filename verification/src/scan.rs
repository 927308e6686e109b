//! Character classes and maximal-run scanning over a line of input.

use vstd::prelude::*;

verus! {

/// The Unicode white space characters: what surrounds the separators of a
/// line and what trimming removes from its edges.
pub open spec fn is_space(c: char) -> bool {
    let u = c as u32;
    u == 32 || (9 <= u && u <= 13) || u == 0x85 || u == 0xa0 || u == 0x1680 || (0x2000 <= u
        && u <= 0x200a) || u == 0x2028 || u == 0x2029 || u == 0x202f || u == 0x205f || u == 0x3000
}

/// An ASCII decimal digit.
pub open spec fn is_digit(c: char) -> bool {
    48 <= c as u32 && c as u32 <= 57
}

/// The value of an ASCII decimal digit.
pub open spec fn digit_val(c: char) -> nat {
    (c as u32 - 48) as nat
}

pub fn space_char(c: char) -> (b: bool)
    ensures
        b == is_space(c),
{
    let u = c as u32;
    u == 32 || (9 <= u && u <= 13) || u == 0x85 || u == 0xa0 || u == 0x1680 || (0x2000 <= u
        && u <= 0x200a) || u == 0x2028 || u == 0x2029 || u == 0x202f || u == 0x205f || u == 0x3000
}

pub fn digit_char(c: char) -> (b: bool)
    ensures
        b == is_digit(c),
{
    let u = c as u32;
    48 <= u && u <= 57
}

/// Index just past the run of digits that starts at `i`.
pub open spec fn digits_end(s: Seq<char>, i: int) -> int
    decreases s.len() - i,
{
    if 0 <= i && i < s.len() && is_digit(s[i]) {
        digits_end(s, i + 1)
    } else {
        i
    }
}

/// Index just past the run of white space that starts at `i`.
pub open spec fn spaces_end(s: Seq<char>, i: int) -> int
    decreases s.len() - i,
{
    if 0 <= i && i < s.len() && is_space(s[i]) {
        spaces_end(s, i + 1)
    } else {
        i
    }
}

/// Index of the first line feed at or after `i`, or the end of the text.
pub open spec fn line_end(s: Seq<char>, i: int) -> int
    decreases s.len() - i,
{
    if 0 <= i && i < s.len() && s[i] != '\n' {
        line_end(s, i + 1)
    } else {
        i
    }
}

pub proof fn lemma_digits_end(s: Seq<char>, i: int)
    requires
        0 <= i <= s.len(),
    ensures
        i <= digits_end(s, i) <= s.len(),
        forall|k: int| i <= k < digits_end(s, i) ==> is_digit(s[k]),
        digits_end(s, i) == s.len() || !is_digit(s[digits_end(s, i)]),
    decreases s.len() - i,
{
    if i < s.len() && is_digit(s[i]) {
        lemma_digits_end(s, i + 1);
    }
}

pub proof fn lemma_spaces_end(s: Seq<char>, i: int)
    requires
        0 <= i <= s.len(),
    ensures
        i <= spaces_end(s, i) <= s.len(),
        forall|k: int| i <= k < spaces_end(s, i) ==> is_space(s[k]),
        spaces_end(s, i) == s.len() || !is_space(s[spaces_end(s, i)]),
    decreases s.len() - i,
{
    if i < s.len() && is_space(s[i]) {
        lemma_spaces_end(s, i + 1);
    }
}

pub proof fn lemma_line_end(s: Seq<char>, i: int)
    requires
        0 <= i <= s.len(),
    ensures
        i <= line_end(s, i) <= s.len(),
        forall|k: int| i <= k < line_end(s, i) ==> s[k] != '\n',
        line_end(s, i) == s.len() || s[line_end(s, i)] == '\n',
    decreases s.len() - i,
{
    if i < s.len() && s[i] != '\n' {
        lemma_line_end(s, i + 1);
    }
}

pub fn scan_digits(s: &Vec<char>, from: usize) -> (j: usize)
    requires
        from <= s@.len(),
    ensures
        j == digits_end(s@, from as int),
        from <= j <= s@.len(),
{
    let n = s.len();
    let mut j = from;
    while j < n && digit_char(s[j])
        invariant
            from <= j <= n,
            n == s@.len(),
            digits_end(s@, from as int) == digits_end(s@, j as int),
        decreases n - j,
    {
        j = j + 1;
    }
    proof {
        lemma_digits_end(s@, from as int);
    }
    j
}

pub fn scan_spaces(s: &Vec<char>, from: usize) -> (j: usize)
    requires
        from <= s@.len(),
    ensures
        j == spaces_end(s@, from as int),
        from <= j <= s@.len(),
{
    let n = s.len();
    let mut j = from;
    while j < n && space_char(s[j])
        invariant
            from <= j <= n,
            n == s@.len(),
            spaces_end(s@, from as int) == spaces_end(s@, j as int),
        decreases n - j,
    {
        j = j + 1;
    }
    proof {
        lemma_spaces_end(s@, from as int);
    }
    j
}

pub fn scan_line_end(s: &Vec<char>, from: usize) -> (j: usize)
    requires
        from <= s@.len(),
    ensures
        j == line_end(s@, from as int),
        from <= j <= s@.len(),
{
    let n = s.len();
    let mut j = from;
    while j < n && s[j] != '\n'
        invariant
            from <= j <= n,
            n == s@.len(),
            line_end(s@, from as int) == line_end(s@, j as int),
        decreases n - j,
    {
        j = j + 1;
    }
    proof {
        lemma_line_end(s@, from as int);
    }
    j
}

/// The characters of a string, as a vector with the same view.
pub fn chars_of(s: &str) -> (r: Vec<char>)
    ensures
        r@ == s@,
{
    let n = s.unicode_len();
    let mut r: Vec<char> = Vec::new();
    let mut i: usize = 0;
    while i < n
        invariant
            i <= n,
            n == s@.len(),
            r@ == s@.take(i as int),
        decreases n - i,
    {
        r.push(s.get_char(i));
        proof {
            assert(s@.take(i + 1 as int) =~= s@.take(i as int).push(s@[i as int]));
        }
        i = i + 1;
    }
    proof {
        assert(s@.take(n as int) =~= s@);
    }
    r
}

/// A copy of the characters of `s` between `from` and `to`.
pub fn copy_range(s: &Vec<char>, from: usize, to: usize) -> (r: Vec<char>)
    requires
        from <= to <= s@.len(),
    ensures
        r@ == s@.subrange(from as int, to as int),
{
    let mut r: Vec<char> = Vec::new();
    let mut i: usize = from;
    while i < to
        invariant
            from <= i <= to <= s@.len(),
            r@ == s@.subrange(from as int, i as int),
        decreases to - i,
    {
        r.push(s[i]);
        proof {
            assert(s@.subrange(from as int, i + 1 as int) =~= s@.subrange(
                from as int,
                i as int,
            ).push(s@[i as int]));
        }
        i = i + 1;
    }
    r
}

} // verus!
