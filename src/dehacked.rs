use vstd::prelude::*;
use crate::names::{add_entry, lemma_add_entry_keeps, lemma_add_entry_same_at, same_at, LevelNames};
use crate::scan::{
    episode_id_end, find_char, find_char_at, is_digit, is_ws, is_ws_char, lemma_find_char_bounds,
    episode_id_end_at, skip_digits, skip_digits_at, skip_ws, skip_ws_at, upper_chars, word_at,
    word_at_pos,
};
use crate::text::{chars_of, push_char, string_of, upper_string_of};

verus! {

/// The end of `s[lo..hi]` once trailing whitespace is removed.
pub open spec fn trim_end(s: Seq<char>, lo: int, hi: int) -> int
    decreases hi - lo,
{
    if hi > lo && is_ws(s[hi - 1]) {
        trim_end(s, lo, hi - 1)
    } else {
        hi
    }
}

/// The trimmed line `s[a..z]` reads `[STRINGS]`, in any ASCII case.
pub open spec fn is_strings_header(s: Seq<char>, a: int, z: int) -> bool {
    z - a == 9 && word_at(s, a, z, seq!['[', 's', 't', 'r', 'i', 'n', 'g', 's', ']'])
}

pub open spec fn digit_value(c: char) -> nat {
    ((c as u32) - ('0' as u32)) as nat
}

/// The decimal value of the digits `s[a..b]`.
pub open spec fn dec_value(s: Seq<char>, a: int, b: int) -> nat
    decreases b - a,
{
    if b <= a {
        0
    } else {
        dec_value(s, a, b - 1) * 10 + digit_value(s[b - 1])
    }
}

pub open spec fn digit_char(k: nat) -> char {
    ((48 + k) as u8) as char
}

/// `MAP` followed by `n` in two digits, zero-padded.
pub open spec fn map_id(n: nat) -> Seq<char> {
    seq!['M', 'A', 'P', digit_char(n / 10), digit_char(n % 10)]
}

/// After a key that ends at `d`: `= <value>`, with whitespace around `=`; where the value
/// starts. The value runs to `z`, the end of the trimmed line, and is not empty.
pub open spec fn assigned_value(s: Seq<char>, d: int, z: int) -> Option<int> {
    let eq = skip_ws(s, d, z);
    let v = skip_ws(s, eq + 1, z);
    if eq < z && s[eq] == '=' && v < z {
        Some(v)
    } else {
        None
    }
}

/// The entry of the trimmed line `s[a..z]` inside `[STRINGS]`: `HUSTR_<n> = <name>` names
/// `MAPnn` where `n` is 1 to 32; `HUSTR_E<e>M<m> = <name>` names `E<e>M<m>`.
pub open spec fn string_entry(s: Seq<char>, a: int, z: int) -> Option<(Seq<char>, Seq<char>)> {
    let b = a + 6;
    let d = skip_digits(s, b, z);
    if !word_at(s, a, z, seq!['h', 'u', 's', 't', 'r', '_']) {
        None
    } else if d > b {
        match assigned_value(s, d, z) {
            Some(v) => {
                let n = dec_value(s, b, d);
                if 1 <= n <= 32 {
                    Some((map_id(n), s.subrange(v, z)))
                } else {
                    None
                }
            },
            None => None,
        }
    } else {
        match episode_id_end(s, b, z) {
            Some(c) => match assigned_value(s, c, z) {
                Some(v) => Some((upper_chars(s.subrange(b, c)), s.subrange(v, z))),
                None => None,
            },
            None => None,
        }
    }
}

/// Whether the reader is inside `[STRINGS]` after the trimmed line `s[a..z]`: a line that
/// opens a section decides it, any other line leaves it as it was.
pub open spec fn in_strings_after(s: Seq<char>, a: int, z: int, was: bool) -> bool {
    if a < z && s[a] == '[' {
        is_strings_header(s, a, z)
    } else {
        was
    }
}

/// The entry that the trimmed line `s[a..z]` gives when the reader was inside `[STRINGS]`
/// before it or not.
pub open spec fn dehacked_line(s: Seq<char>, a: int, z: int, was: bool) -> Option<
    (Seq<char>, Seq<char>),
> {
    if a < z && s[a] == '[' {
        None
    } else if was {
        string_entry(s, a, z)
    } else {
        None
    }
}

/// `m` after the lines of `s` from the one that starts at `p` on were read, `in_strings`
/// telling whether the reader is inside `[STRINGS]` there.
pub open spec fn dehacked_fold(
    s: Seq<char>,
    p: int,
    in_strings: bool,
    m: Map<Seq<char>, Seq<char>>,
) -> Map<Seq<char>, Seq<char>>
    decreases s.len() - p,
    via dehacked_fold_decreases
{
    if p >= s.len() {
        m
    } else {
        let e = find_char(s, p, s.len() as int, '\n');
        let a = skip_ws(s, p, e);
        let z = trim_end(s, a, e);
        let next = add_entry(m, dehacked_line(s, a, z, in_strings));
        if e >= s.len() {
            next
        } else {
            dehacked_fold(s, e + 1, in_strings_after(s, a, z, in_strings), next)
        }
    }
}

#[via_fn]
proof fn dehacked_fold_decreases(
    s: Seq<char>,
    p: int,
    in_strings: bool,
    m: Map<Seq<char>, Seq<char>>,
) {
    if p < s.len() {
        lemma_find_char_bounds(s, p, s.len() as int, '\n');
    }
}

/// Outside a `[STRINGS]` section no line names a level, whatever it holds.
pub proof fn lemma_outside_strings_adds_nothing(s: Seq<char>, a: int, z: int)
    ensures
        dehacked_line(s, a, z, false) is None,
{
}

/// What a string table gives the level `k` depends only on what the map held for `k` before.
pub proof fn lemma_dehacked_fold_same_at(
    s: Seq<char>,
    p: int,
    in_strings: bool,
    m1: Map<Seq<char>, Seq<char>>,
    m2: Map<Seq<char>, Seq<char>>,
    k: Seq<char>,
)
    requires
        same_at(m1, m2, k),
    ensures
        same_at(dehacked_fold(s, p, in_strings, m1), dehacked_fold(s, p, in_strings, m2), k),
    decreases s.len() - p,
{
    if p < s.len() {
        let e = find_char(s, p, s.len() as int, '\n');
        lemma_find_char_bounds(s, p, s.len() as int, '\n');
        let a = skip_ws(s, p, e);
        let z = trim_end(s, a, e);
        let line = dehacked_line(s, a, z, in_strings);
        lemma_add_entry_same_at(m1, m2, line, k);
        if e < s.len() {
            lemma_dehacked_fold_same_at(
                s,
                e + 1,
                in_strings_after(s, a, z, in_strings),
                add_entry(m1, line),
                add_entry(m2, line),
                k,
            );
        }
    }
}

/// Reading a string table never changes a level that already has a name.
pub proof fn lemma_dehacked_fold_keeps(
    s: Seq<char>,
    p: int,
    in_strings: bool,
    m: Map<Seq<char>, Seq<char>>,
    k: Seq<char>,
)
    requires
        m.contains_key(k),
    ensures
        dehacked_fold(s, p, in_strings, m).contains_key(k),
        dehacked_fold(s, p, in_strings, m)[k] == m[k],
    decreases s.len() - p,
{
    if p < s.len() {
        let e = find_char(s, p, s.len() as int, '\n');
        lemma_find_char_bounds(s, p, s.len() as int, '\n');
        let a = skip_ws(s, p, e);
        let z = trim_end(s, a, e);
        let next = add_entry(m, dehacked_line(s, a, z, in_strings));
        lemma_add_entry_keeps(m, dehacked_line(s, a, z, in_strings), k);
        if e < s.len() {
            lemma_dehacked_fold_keeps(s, e + 1, in_strings_after(s, a, z, in_strings), next, k);
        }
    }
}

proof fn lemma_dec_value_grows(s: Seq<char>, a: int, b: int)
    requires
        a < b,
        is_digit(s[b - 1]),
    ensures
        dec_value(s, a, b) >= dec_value(s, a, b - 1),
{
}

fn trim_end_at(s: &Vec<char>, lo: usize, hi: usize) -> (r: usize)
    requires
        lo <= hi <= s@.len(),
    ensures
        r == trim_end(s@, lo as int, hi as int),
        lo <= r <= hi,
{
    let mut z = hi;
    while z > lo && is_ws_char(s[z - 1])
        invariant
            lo <= z <= hi <= s@.len(),
            trim_end(s@, lo as int, hi as int) == trim_end(s@, lo as int, z as int),
        decreases z,
    {
        z = z - 1;
    }
    z
}

fn assigned_value_at(s: &Vec<char>, d: usize, z: usize) -> (r: Option<usize>)
    requires
        d <= z <= s@.len(),
    ensures
        r matches Some(v) ==> assigned_value(s@, d as int, z as int) == Some(v as int) && d < v
            < z,
        r is None ==> assigned_value(s@, d as int, z as int) is None,
{
    let eq = skip_ws_at(s, d, z);
    if eq >= z || s[eq] != '=' {
        return None;
    }
    let v = skip_ws_at(s, eq + 1, z);
    if v < z {
        Some(v)
    } else {
        None
    }
}

/// The value of the digits `s[a..b]`, or a value of at least 33 where it is 33 or more.
fn dec_value_capped(s: &Vec<char>, a: usize, b: usize) -> (r: u32)
    requires
        a <= b <= s@.len(),
        forall|i: int| a <= i < b ==> is_digit(#[trigger] s@[i]),
    ensures
        dec_value(s@, a as int, b as int) < 33 ==> r == dec_value(s@, a as int, b as int),
        dec_value(s@, a as int, b as int) >= 33 ==> r >= 33,
{
    let mut n: u32 = 0;
    let mut i = a;
    while i < b
        invariant
            a <= i <= b <= s@.len(),
            forall|j: int| a <= j < b ==> is_digit(#[trigger] s@[j]),
            n <= 329,
            dec_value(s@, a as int, i as int) < 33 ==> n == dec_value(s@, a as int, i as int),
            dec_value(s@, a as int, i as int) >= 33 ==> n >= 33,
        decreases b - i,
    {
        assert(is_digit(s@[i as int]));
        proof {
            lemma_dec_value_grows(s@, a as int, i + 1);
        }
        if n < 33 {
            n = n * 10 + (s[i] as u32 - '0' as u32);
        }
        i = i + 1;
    }
    n
}

/// `MAP` followed by `n` in two digits.
fn map_id_string(n: u32) -> (r: String)
    requires
        1 <= n <= 32,
    ensures
        r@ == map_id(n as nat),
{
    let mut r = String::new();
    push_char(&mut r, 'M');
    push_char(&mut r, 'A');
    push_char(&mut r, 'P');
    push_char(&mut r, ((48 + n / 10) as u8) as char);
    push_char(&mut r, ((48 + n % 10) as u8) as char);
    assert(r@ =~= map_id(n as nat));
    r
}

/// The entry of the trimmed line `s[a..z]` inside `[STRINGS]`, as `string_entry` says.
fn string_entry_at(s: &Vec<char>, a: usize, z: usize) -> (r: Option<(String, String)>)
    requires
        a <= z <= s@.len(),
    ensures
        r matches Some((k, v)) ==> string_entry(s@, a as int, z as int) == Some((k@, v@)),
        r is None ==> string_entry(s@, a as int, z as int) is None,
{
    if !word_at_pos(s, a, z, &['h', 'u', 's', 't', 'r', '_']) {
        return None;
    }
    let b = a + 6;
    let d = skip_digits_at(s, b, z);
    if d > b {
        proof {
            assert forall|i: int| b <= i < d implies is_digit(#[trigger] s@[i]) by {
                lemma_digits_run(s@, b as int, z as int, i);
            }
        }
        match assigned_value_at(s, d, z) {
            Some(v) => {
                let n = dec_value_capped(s, b, d);
                if 1 <= n && n <= 32 {
                    Some((map_id_string(n), string_of(s, v, z)))
                } else {
                    None
                }
            },
            None => None,
        }
    } else {
        match episode_id_end_at(s, b, z) {
            Some(c) => match assigned_value_at(s, c, z) {
                Some(v) => Some((upper_string_of(s, b, c), string_of(s, v, z))),
                None => None,
            },
            None => None,
        }
    }
}

proof fn lemma_digits_run(s: Seq<char>, p: int, hi: int, i: int)
    requires
        p <= i < skip_digits(s, p, hi),
    ensures
        is_digit(s[i]),
    decreases hi - p,
{
    if p < hi && is_digit(s[p]) {
        if i > p {
            lemma_digits_run(s, p + 1, hi, i);
        }
    }
}

/// Reads a legacy string-table lump: inside a `[STRINGS]` section, each line
/// `HUSTR_<n> = <name>` names `MAPnn` (for `n` from 1 to 32) and each line
/// `HUSTR_E<e>M<m> = <name>` names `E<e>M<m>`. A level that already has a name keeps it.
pub fn parse_dehacked(content: &str, names: &mut LevelNames)
    requires
        old(names).wf(),
    ensures
        final(names).wf(),
        final(names)@ == dehacked_fold(content@, 0, false, old(names)@),
{
    let s = chars_of(content);
    let n = s.len();
    let mut p: usize = 0;
    let mut in_strings = false;
    while p < n
        invariant
            n == s@.len(),
            s@ == content@,
            p <= n,
            names.wf(),
            dehacked_fold(s@, 0, false, old(names)@) == dehacked_fold(
                s@,
                p as int,
                in_strings,
                names@,
            ),
        decreases n - p,
    {
        let e = find_char_at(&s, p, n, '\n');
        let a = skip_ws_at(&s, p, e);
        let z = trim_end_at(&s, a, e);
        let opens_section = a < z && s[a] == '[';
        if !opens_section && in_strings {
            match string_entry_at(&s, a, z) {
                Some((k, v)) => names.insert_if_absent(k, v),
                None => {},
            }
        }
        if opens_section {
            in_strings = z - a == 9 && word_at_pos(
                &s,
                a,
                z,
                &['[', 's', 't', 'r', 'i', 'n', 'g', 's', ']'],
            );
        }
        if e >= n {
            p = n;
        } else {
            p = e + 1;
        }
    }
}

} // verus!
