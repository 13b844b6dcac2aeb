use vstd::prelude::*;

verus! {

/// A character of Unicode's `White_Space` property, the class that `\s` and `str::trim` use.
pub open spec fn is_ws(c: char) -> bool {
    let u = c as u32;
    (0x9 <= u <= 0xd) || u == 0x20 || u == 0x85 || u == 0xa0 || u == 0x1680 || (0x2000 <= u
        <= 0x200a) || u == 0x2028 || u == 0x2029 || u == 0x202f || u == 0x205f || u == 0x3000
}

pub open spec fn is_digit(c: char) -> bool {
    '0' <= c <= '9'
}

/// ASCII lower case; every other character is left as it is.
pub open spec fn lower(c: char) -> char {
    if 'A' <= c <= 'Z' {
        (((c as u32) + 32) as u8) as char
    } else {
        c
    }
}

/// ASCII upper case; every other character is left as it is.
pub open spec fn upper(c: char) -> char {
    if 'a' <= c <= 'z' {
        (((c as u32) - 32) as u8) as char
    } else {
        c
    }
}

pub open spec fn upper_chars(s: Seq<char>) -> Seq<char> {
    s.map_values(|c: char| upper(c))
}

/// The first index from `p` on, below `hi`, that does not hold whitespace; `hi` if none.
pub open spec fn skip_ws(s: Seq<char>, p: int, hi: int) -> int
    decreases hi - p,
{
    if p < hi && is_ws(s[p]) {
        skip_ws(s, p + 1, hi)
    } else {
        p
    }
}

/// The first index from `p` on, below `hi`, that does not hold an ASCII digit; `hi` if none.
pub open spec fn skip_digits(s: Seq<char>, p: int, hi: int) -> int
    decreases hi - p,
{
    if p < hi && is_digit(s[p]) {
        skip_digits(s, p + 1, hi)
    } else {
        p
    }
}

/// The first index from `p` on, below `hi`, that holds `c`; `hi` if none.
pub open spec fn find_char(s: Seq<char>, p: int, hi: int, c: char) -> int
    decreases hi - p,
{
    if p < hi && s[p] != c {
        find_char(s, p + 1, hi, c)
    } else {
        p
    }
}

/// The lower-case word `w` stands at `p`, below `hi`, in any ASCII case.
pub open spec fn word_at(s: Seq<char>, p: int, hi: int, w: Seq<char>) -> bool {
    &&& 0 <= p
    &&& p + w.len() <= hi
    &&& forall|k: int| 0 <= k < w.len() ==> lower(#[trigger] s[p + k]) == w[k]
}

/// The index after an episode identifier `E<digits>M<digits>` at `p`, any case.
pub open spec fn episode_id_end(s: Seq<char>, p: int, hi: int) -> Option<int> {
    if word_at(s, p, hi, seq!['e']) {
        let m = skip_digits(s, p + 1, hi);
        if m > p + 1 && word_at(s, m, hi, seq!['m']) {
            let e = skip_digits(s, m + 1, hi);
            if e > m + 1 {
                Some(e)
            } else {
                None
            }
        } else {
            None
        }
    } else {
        None
    }
}

/// The index after a level identifier at `p`: `MAP<digits>` or `E<digits>M<digits>`, any case.
pub open spec fn level_id_end(s: Seq<char>, p: int, hi: int) -> Option<int> {
    if word_at(s, p, hi, seq!['m', 'a', 'p']) {
        let e = skip_digits(s, p + 3, hi);
        if e > p + 3 {
            Some(e)
        } else {
            None
        }
    } else {
        episode_id_end(s, p, hi)
    }
}

pub proof fn lemma_skip_ws_bounds(s: Seq<char>, p: int, hi: int)
    requires
        p <= hi,
    ensures
        p <= skip_ws(s, p, hi) <= hi,
    decreases hi - p,
{
    if p < hi && is_ws(s[p]) {
        lemma_skip_ws_bounds(s, p + 1, hi);
    }
}

pub proof fn lemma_skip_digits_bounds(s: Seq<char>, p: int, hi: int)
    requires
        p <= hi,
    ensures
        p <= skip_digits(s, p, hi) <= hi,
    decreases hi - p,
{
    if p < hi && is_digit(s[p]) {
        lemma_skip_digits_bounds(s, p + 1, hi);
    }
}

pub proof fn lemma_find_char_bounds(s: Seq<char>, p: int, hi: int, c: char)
    requires
        p <= hi,
    ensures
        p <= find_char(s, p, hi, c) <= hi,
    decreases hi - p,
{
    if p < hi && s[p] != c {
        lemma_find_char_bounds(s, p + 1, hi, c);
    }
}

pub proof fn lemma_level_id_bounds(s: Seq<char>, p: int, hi: int)
    requires
        0 <= p <= hi,
    ensures
        level_id_end(s, p, hi) matches Some(e) ==> p < e <= hi,
{
    if word_at(s, p, hi, seq!['m', 'a', 'p']) {
        lemma_skip_digits_bounds(s, p + 3, hi);
    } else if word_at(s, p, hi, seq!['e']) {
        lemma_skip_digits_bounds(s, p + 1, hi);
        let m = skip_digits(s, p + 1, hi);
        if m > p + 1 && word_at(s, m, hi, seq!['m']) {
            lemma_skip_digits_bounds(s, m + 1, hi);
        }
    }
}

pub fn is_ws_char(c: char) -> (r: bool)
    ensures
        r == is_ws(c),
{
    let u = c as u32;
    (0x9 <= u && u <= 0xd) || u == 0x20 || u == 0x85 || u == 0xa0 || u == 0x1680 || (0x2000 <= u
        && u <= 0x200a) || u == 0x2028 || u == 0x2029 || u == 0x202f || u == 0x205f || u == 0x3000
}

pub fn lower_char(c: char) -> (r: char)
    ensures
        r == lower(c),
{
    if 'A' <= c && c <= 'Z' {
        (((c as u32) + 32) as u8) as char
    } else {
        c
    }
}

pub fn upper_char(c: char) -> (r: char)
    ensures
        r == upper(c),
{
    if 'a' <= c && c <= 'z' {
        (((c as u32) - 32) as u8) as char
    } else {
        c
    }
}

pub fn skip_ws_at(s: &Vec<char>, p: usize, hi: usize) -> (r: usize)
    requires
        p <= hi <= s@.len(),
    ensures
        r == skip_ws(s@, p as int, hi as int),
        p <= r <= hi,
{
    let mut i = p;
    while i < hi && is_ws_char(s[i])
        invariant
            p <= i <= hi <= s@.len(),
            skip_ws(s@, p as int, hi as int) == skip_ws(s@, i as int, hi as int),
        decreases hi - i,
    {
        i = i + 1;
    }
    i
}

pub fn skip_digits_at(s: &Vec<char>, p: usize, hi: usize) -> (r: usize)
    requires
        p <= hi <= s@.len(),
    ensures
        r == skip_digits(s@, p as int, hi as int),
        p <= r <= hi,
{
    let mut i = p;
    while i < hi && '0' <= s[i] && s[i] <= '9'
        invariant
            p <= i <= hi <= s@.len(),
            skip_digits(s@, p as int, hi as int) == skip_digits(s@, i as int, hi as int),
        decreases hi - i,
    {
        i = i + 1;
    }
    i
}

pub fn find_char_at(s: &Vec<char>, p: usize, hi: usize, c: char) -> (r: usize)
    requires
        p <= hi <= s@.len(),
    ensures
        r == find_char(s@, p as int, hi as int, c),
        p <= r <= hi,
{
    let mut i = p;
    while i < hi && s[i] != c
        invariant
            p <= i <= hi <= s@.len(),
            find_char(s@, p as int, hi as int, c) == find_char(s@, i as int, hi as int, c),
        decreases hi - i,
    {
        i = i + 1;
    }
    i
}

/// Whether the lower-case word `w` stands at `p`, below `hi`, in any ASCII case.
pub fn word_at_pos(s: &Vec<char>, p: usize, hi: usize, w: &[char]) -> (r: bool)
    requires
        p <= hi <= s@.len(),
    ensures
        r == word_at(s@, p as int, hi as int, w@),
{
    if w.len() > hi - p {
        return false;
    }
    let mut k: usize = 0;
    while k < w.len()
        invariant
            p + w@.len() <= hi <= s@.len(),
            k <= w@.len(),
            forall|j: int| 0 <= j < k ==> lower(#[trigger] s@[p + j]) == w@[j],
        decreases w@.len() - k,
    {
        if lower_char(s[p + k]) != w[k] {
            return false;
        }
        k = k + 1;
    }
    true
}

/// The index after an episode identifier at `p`, as `episode_id_end` describes it.
pub fn episode_id_end_at(s: &Vec<char>, p: usize, hi: usize) -> (r: Option<usize>)
    requires
        p <= hi <= s@.len(),
    ensures
        r matches Some(e) ==> episode_id_end(s@, p as int, hi as int) == Some(e as int) && p < e
            <= hi,
        r is None ==> episode_id_end(s@, p as int, hi as int) is None,
{
    if !word_at_pos(s, p, hi, &['e']) {
        return None;
    }
    let m = skip_digits_at(s, p + 1, hi);
    if m > p + 1 && word_at_pos(s, m, hi, &['m']) {
        let e = skip_digits_at(s, m + 1, hi);
        if e > m + 1 {
            Some(e)
        } else {
            None
        }
    } else {
        None
    }
}

/// The index after a level identifier at `p`, as `level_id_end` describes it.
pub fn level_id_end_at(s: &Vec<char>, p: usize, hi: usize) -> (r: Option<usize>)
    requires
        p <= hi <= s@.len(),
    ensures
        r matches Some(e) ==> level_id_end(s@, p as int, hi as int) == Some(e as int) && p < e
            <= hi,
        r is None ==> level_id_end(s@, p as int, hi as int) is None,
{
    if word_at_pos(s, p, hi, &['m', 'a', 'p']) {
        let e = skip_digits_at(s, p + 3, hi);
        if e > p + 3 {
            Some(e)
        } else {
            None
        }
    } else {
        episode_id_end_at(s, p, hi)
    }
}

} // verus!
