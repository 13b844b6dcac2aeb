use vstd::prelude::*;
use crate::names::{
    add_entry, entry_for, lemma_add_entry_keeps, lemma_add_entry_other, same_at, LevelNames,
};
use crate::scan::{
    find_char, find_char_at, lemma_find_char_bounds, lemma_level_id_bounds, lemma_skip_ws_bounds,
    level_id_end, level_id_end_at, skip_ws, skip_ws_at, upper_chars, word_at, word_at_pos,
};
use crate::text::{chars_of, string_of, upper_string_of};

verus! {

/// A name that points into a string table (`HUSTR...` or `$...`) instead of spelling a name.
pub open spec fn is_reference(v: Seq<char>) -> bool {
    (v.len() >= 5 && v.subrange(0, 5) == seq!['H', 'U', 'S', 'T', 'R']) || (v.len() >= 1 && v[0]
        == '$')
}

/// The declaration `map <level> "<name>"` that opens the line `s[lo..hi]`, after optional
/// whitespace: the level in upper case and the name.
pub open spec fn inline_decl(s: Seq<char>, lo: int, hi: int) -> Option<(Seq<char>, Seq<char>)> {
    let a = skip_ws(s, lo, hi);
    let b = skip_ws(s, a + 3, hi);
    if !word_at(s, a, hi, seq!['m', 'a', 'p']) || b == a + 3 {
        None
    } else {
        match level_id_end(s, b, hi) {
            None => None,
            Some(c) => {
                let q = skip_ws(s, c, hi);
                let e = find_char(s, q + 1, hi, '"');
                if q == c || q >= hi || s[q] != '"' || e >= hi || e == q + 1 {
                    None
                } else {
                    Some((upper_chars(s.subrange(b, c)), s.subrange(q + 1, e)))
                }
            },
        }
    }
}

/// The entry that the line `s[lo..hi]` gives in the inline form: its declaration, unless the
/// name is a reference.
pub open spec fn inline_entry(s: Seq<char>, lo: int, hi: int) -> Option<(Seq<char>, Seq<char>)> {
    match inline_decl(s, lo, hi) {
        Some((k, v)) => if is_reference(v) {
            None
        } else {
            Some((k, v))
        },
        None => None,
    }
}

/// `m` after the lines of `s` from the one that starts at `p` on were read in the inline form.
pub open spec fn inline_fold(s: Seq<char>, p: int, m: Map<Seq<char>, Seq<char>>) -> Map<
    Seq<char>,
    Seq<char>,
>
    decreases s.len() - p,
    via inline_fold_decreases
{
    if p >= s.len() {
        m
    } else {
        let e = find_char(s, p, s.len() as int, '\n');
        let next = add_entry(m, inline_entry(s, p, e));
        if e >= s.len() {
            next
        } else {
            inline_fold(s, e + 1, next)
        }
    }
}

#[via_fn]
proof fn inline_fold_decreases(s: Seq<char>, p: int, m: Map<Seq<char>, Seq<char>>) {
    if p < s.len() {
        lemma_find_char_bounds(s, p, s.len() as int, '\n');
    }
}

/// A block `map <level> { ... }` at `p`: where its level starts and ends, where its body
/// starts, and the index of the first `}` after the `{`.
pub open spec fn block_at(s: Seq<char>, p: int) -> Option<(int, int, int, int)> {
    let n = s.len() as int;
    let b = skip_ws(s, p + 3, n);
    if !word_at(s, p, n, seq!['m', 'a', 'p']) || b == p + 3 {
        None
    } else {
        match level_id_end(s, b, n) {
            None => None,
            Some(c) => {
                let d = skip_ws(s, c, n);
                let e = find_char(s, d + 1, n, '}');
                if d >= n || s[d] != '{' || e >= n {
                    None
                } else {
                    Some((b, c, d + 1, e))
                }
            },
        }
    }
}

/// An assignment `levelname = "<name>"` at `p`, below `hi`: where its name starts and ends.
pub open spec fn levelname_at(s: Seq<char>, p: int, hi: int) -> Option<(int, int)> {
    let a = skip_ws(s, p + 9, hi);
    let b = skip_ws(s, a + 1, hi);
    let e = find_char(s, b + 1, hi, '"');
    if !word_at(s, p, hi, seq!['l', 'e', 'v', 'e', 'l', 'n', 'a', 'm', 'e']) || a >= hi || s[a]
        != '=' || b >= hi || s[b] != '"' || e >= hi || e == b + 1 {
        None
    } else {
        Some((b + 1, e))
    }
}

/// The name of the first `levelname` assignment from `p` on, below `hi`.
pub open spec fn first_levelname(s: Seq<char>, p: int, hi: int) -> Option<Seq<char>>
    decreases hi - p,
{
    if p >= hi {
        None
    } else {
        match levelname_at(s, p, hi) {
            Some((x, y)) => Some(s.subrange(x, y)),
            None => first_levelname(s, p + 1, hi),
        }
    }
}

/// The entry of the block whose level is `s[b..c]` and whose body is `s[x..e]`; a name that
/// starts with `$` gives none.
pub open spec fn block_entry(s: Seq<char>, b: int, c: int, x: int, e: int) -> Option<
    (Seq<char>, Seq<char>),
> {
    match first_levelname(s, x, e) {
        Some(v) => if v.len() >= 1 && v[0] == '$' {
            None
        } else {
            Some((upper_chars(s.subrange(b, c)), v))
        },
        None => None,
    }
}

/// `m` after the blocks of `s` from `p` on were read, each search going on after the last
/// block found.
pub open spec fn block_fold(s: Seq<char>, p: int, m: Map<Seq<char>, Seq<char>>) -> Map<
    Seq<char>,
    Seq<char>,
>
    decreases s.len() - p,
    via block_fold_decreases
{
    if p >= s.len() {
        m
    } else {
        match block_at(s, p) {
            Some((b, c, x, e)) => block_fold(
                s,
                e + 1,
                add_entry(m, block_entry(s, b, c, x, e)),
            ),
            None => block_fold(s, p + 1, m),
        }
    }
}

#[via_fn]
proof fn block_fold_decreases(
    s: Seq<char>,
    p: int,
    m: Map<Seq<char>, Seq<char>>,
) {
    if p < s.len() {
        lemma_block_at_bounds(s, p);
    }
}

pub proof fn lemma_block_at_bounds(s: Seq<char>, p: int)
    ensures
        block_at(s, p) matches Some((b, c, x, e)) ==> p < b < c <= x <= e < s.len(),
{
    let n = s.len() as int;
    if word_at(s, p, n, seq!['m', 'a', 'p']) {
        lemma_skip_ws_bounds(s, p + 3, n);
        let b = skip_ws(s, p + 3, n);
        lemma_level_id_bounds(s, b, n);
        if let Some(c) = level_id_end(s, b, n) {
            lemma_skip_ws_bounds(s, c, n);
            let d = skip_ws(s, c, n);
            if d < n {
                lemma_find_char_bounds(s, d + 1, n, '}');
            }
        }
    }
}

/// A line whose name is a reference adds nothing in the inline form.
pub proof fn lemma_reference_skipped(s: Seq<char>, lo: int, hi: int)
    ensures
        inline_decl(s, lo, hi) matches Some((k, v)) && is_reference(v) ==> inline_entry(
            s,
            lo,
            hi,
        ) is None,
{
}

/// The entry of the block at `p`, if a block stands there.
pub open spec fn block_entry_at(s: Seq<char>, p: int) -> Option<(Seq<char>, Seq<char>)> {
    match block_at(s, p) {
        Some((b, c, x, e)) => block_entry(s, b, c, x, e),
        None => None,
    }
}

/// Where no line from `p` on gives the level `k` an accepted inline entry, reading the lines
/// leaves `k` as it was.
pub proof fn lemma_inline_fold_other(s: Seq<char>, p: int, m: Map<Seq<char>, Seq<char>>, k: Seq<char>)
    requires
        forall|q: int|
            p <= q < s.len() ==> !entry_for(
                #[trigger] inline_entry(s, q, find_char(s, q, s.len() as int, '\n')),
                k,
            ),
    ensures
        same_at(inline_fold(s, p, m), m, k),
    decreases s.len() - p,
{
    if p < s.len() {
        let e = find_char(s, p, s.len() as int, '\n');
        lemma_find_char_bounds(s, p, s.len() as int, '\n');
        let next = add_entry(m, inline_entry(s, p, e));
        lemma_add_entry_other(m, inline_entry(s, p, e), k);
        if e < s.len() {
            lemma_inline_fold_other(s, e + 1, next, k);
        }
    }
}

/// Where no block from `p` on gives the level `k` an accepted name, reading the blocks leaves
/// `k` as it was.
pub proof fn lemma_block_fold_other(s: Seq<char>, p: int, m: Map<Seq<char>, Seq<char>>, k: Seq<char>)
    requires
        forall|q: int| p <= q < s.len() ==> !entry_for(#[trigger] block_entry_at(s, q), k),
    ensures
        same_at(block_fold(s, p, m), m, k),
    decreases s.len() - p,
{
    if p < s.len() {
        lemma_block_at_bounds(s, p);
        assert(!entry_for(block_entry_at(s, p), k));
        match block_at(s, p) {
            Some((b, c, x, e)) => {
                lemma_add_entry_other(m, block_entry(s, b, c, x, e), k);
                lemma_block_fold_other(s, e + 1, add_entry(m, block_entry(s, b, c, x, e)), k);
            },
            None => {
                lemma_block_fold_other(s, p + 1, m, k);
            },
        }
    }
}

/// A declaration whose name is a reference (`HUSTR...` or `$...`) inserts nothing: where no
/// other line and no block of a metadata text gives the level `k` an accepted name, reading
/// the text leaves `k` as it was, to be named by a later stage.
pub proof fn lemma_mapinfo_leaves_level(s: Seq<char>, m: Map<Seq<char>, Seq<char>>, k: Seq<char>)
    requires
        forall|q: int|
            0 <= q < s.len() ==> !entry_for(
                #[trigger] inline_entry(s, q, find_char(s, q, s.len() as int, '\n')),
                k,
            ),
        forall|q: int| 0 <= q < s.len() ==> !entry_for(#[trigger] block_entry_at(s, q), k),
    ensures
        same_at(block_fold(s, 0, inline_fold(s, 0, m)), m, k),
{
    lemma_inline_fold_other(s, 0, m, k);
    lemma_block_fold_other(s, 0, inline_fold(s, 0, m), k);
}

/// Reading lines in the inline form never changes a level that already has a name.
pub proof fn lemma_inline_fold_keeps(
    s: Seq<char>,
    p: int,
    m: Map<Seq<char>, Seq<char>>,
    k: Seq<char>,
)
    requires
        m.contains_key(k),
    ensures
        inline_fold(s, p, m).contains_key(k),
        inline_fold(s, p, m)[k] == m[k],
    decreases s.len() - p,
{
    if p < s.len() {
        let e = find_char(s, p, s.len() as int, '\n');
        lemma_find_char_bounds(s, p, s.len() as int, '\n');
        let next = add_entry(m, inline_entry(s, p, e));
        lemma_add_entry_keeps(m, inline_entry(s, p, e), k);
        if e < s.len() {
            lemma_inline_fold_keeps(s, e + 1, next, k);
        }
    }
}

/// Reading blocks never changes a level that already has a name.
pub proof fn lemma_block_fold_keeps(
    s: Seq<char>,
    p: int,
    m: Map<Seq<char>, Seq<char>>,
    k: Seq<char>,
)
    requires
        m.contains_key(k),
    ensures
        block_fold(s, p, m).contains_key(k),
        block_fold(s, p, m)[k] == m[k],
    decreases s.len() - p,
{
    if p < s.len() {
        lemma_block_at_bounds(s, p);
        match block_at(s, p) {
            Some((b, c, x, e)) => {
                lemma_add_entry_keeps(m, block_entry(s, b, c, x, e), k);
                lemma_block_fold_keeps(s, e + 1, add_entry(m, block_entry(s, b, c, x, e)), k);
            },
            None => {
                lemma_block_fold_keeps(s, p + 1, m, k);
            },
        }
    }
}

/// Whether the characters `s[lo..hi]` form a reference, as `is_reference` says.
fn is_reference_at(s: &Vec<char>, lo: usize, hi: usize) -> (r: bool)
    requires
        lo <= hi <= s@.len(),
    ensures
        r == is_reference(s@.subrange(lo as int, hi as int)),
{
    let ghost v = s@.subrange(lo as int, hi as int);
    if hi - lo >= 5 && s[lo] == 'H' && s[lo + 1] == 'U' && s[lo + 2] == 'S' && s[lo + 3] == 'T'
        && s[lo + 4] == 'R' {
        assert(v.subrange(0, 5) =~= seq!['H', 'U', 'S', 'T', 'R']);
        return true;
    }
    if hi - lo >= 5 {
        assert(v.subrange(0, 5) != seq!['H', 'U', 'S', 'T', 'R']) by {
            let w = seq!['H', 'U', 'S', 'T', 'R'];
            if v.subrange(0, 5) == w {
                assert(v.subrange(0, 5)[0] == w[0]);
                assert(v.subrange(0, 5)[1] == w[1]);
                assert(v.subrange(0, 5)[2] == w[2]);
                assert(v.subrange(0, 5)[3] == w[3]);
                assert(v.subrange(0, 5)[4] == w[4]);
            }
        }
    }
    hi > lo && s[lo] == '$'
}

/// The entry of the line `s[lo..hi]` in the inline form, as `inline_entry` says.
pub fn inline_entry_at(s: &Vec<char>, lo: usize, hi: usize) -> (r: Option<(String, String)>)
    requires
        lo <= hi <= s@.len(),
    ensures
        r matches Some((k, v)) ==> inline_entry(s@, lo as int, hi as int) == Some((k@, v@)),
        r is None ==> inline_entry(s@, lo as int, hi as int) is None,
{
    let a = skip_ws_at(s, lo, hi);
    if !word_at_pos(s, a, hi, &['m', 'a', 'p']) {
        return None;
    }
    let b = skip_ws_at(s, a + 3, hi);
    if b == a + 3 {
        return None;
    }
    match level_id_end_at(s, b, hi) {
        None => None,
        Some(c) => {
            let q = skip_ws_at(s, c, hi);
            if q == c || q >= hi || s[q] != '"' {
                return None;
            }
            let e = find_char_at(s, q + 1, hi, '"');
            if e >= hi || e == q + 1 {
                return None;
            }
            if is_reference_at(s, q + 1, e) {
                return None;
            }
            Some((upper_string_of(s, b, c), string_of(s, q + 1, e)))
        },
    }
}

/// The block at `p`, as `block_at` says.
pub fn block_at_pos(s: &Vec<char>, p: usize) -> (r: Option<(usize, usize, usize, usize)>)
    requires
        p <= s@.len(),
    ensures
        r matches Some((b, c, x, e)) ==> block_at(s@, p as int) == Some(
            (b as int, c as int, x as int, e as int),
        ),
        r is None ==> block_at(s@, p as int) is None,
{
    let n = s.len();
    if !word_at_pos(s, p, n, &['m', 'a', 'p']) {
        return None;
    }
    let b = skip_ws_at(s, p + 3, n);
    if b == p + 3 {
        return None;
    }
    match level_id_end_at(s, b, n) {
        None => None,
        Some(c) => {
            let d = skip_ws_at(s, c, n);
            if d >= n || s[d] != '{' {
                return None;
            }
            let e = find_char_at(s, d + 1, n, '}');
            if e >= n {
                return None;
            }
            Some((b, c, d + 1, e))
        },
    }
}

/// The `levelname` assignment at `p`, below `hi`, as `levelname_at` says.
fn levelname_at_pos(s: &Vec<char>, p: usize, hi: usize) -> (r: Option<(usize, usize)>)
    requires
        p <= hi <= s@.len(),
    ensures
        r matches Some((x, y)) ==> levelname_at(s@, p as int, hi as int) == Some(
            (x as int, y as int),
        ) && p < x <= y <= hi,
        r is None ==> levelname_at(s@, p as int, hi as int) is None,
{
    if !word_at_pos(s, p, hi, &['l', 'e', 'v', 'e', 'l', 'n', 'a', 'm', 'e']) {
        return None;
    }
    let a = skip_ws_at(s, p + 9, hi);
    if a >= hi || s[a] != '=' {
        return None;
    }
    let b = skip_ws_at(s, a + 1, hi);
    if b >= hi || s[b] != '"' {
        return None;
    }
    let e = find_char_at(s, b + 1, hi, '"');
    if e >= hi || e == b + 1 {
        return None;
    }
    Some((b + 1, e))
}

/// The name of the first `levelname` assignment in `s[lo..hi]`, as `first_levelname` says.
fn first_levelname_in(s: &Vec<char>, lo: usize, hi: usize) -> (r: Option<(usize, usize)>)
    requires
        lo <= hi <= s@.len(),
    ensures
        r matches Some((x, y)) ==> lo <= x <= y <= hi && first_levelname(
            s@,
            lo as int,
            hi as int,
        ) == Some(s@.subrange(x as int, y as int)),
        r is None ==> first_levelname(s@, lo as int, hi as int) is None,
{
    let mut p = lo;
    while p < hi
        invariant
            lo <= p <= hi <= s@.len(),
            first_levelname(s@, lo as int, hi as int) == first_levelname(s@, p as int, hi as int),
        decreases hi - p,
    {
        match levelname_at_pos(s, p, hi) {
            Some((x, y)) => {
                return Some((x, y));
            },
            None => {},
        }
        p = p + 1;
    }
    None
}

/// Adds `e` to `names` where its level has no name yet.
fn add_found(names: &mut LevelNames, e: Option<(String, String)>)
    requires
        old(names).wf(),
    ensures
        final(names).wf(),
        final(names)@ == add_entry(
            old(names)@,
            match e {
                Some((k, v)) => Some((k@, v@)),
                None => None,
            },
        ),
{
    match e {
        Some((k, v)) => names.insert_if_absent(k, v),
        None => {},
    }
}

/// Reads every line of `s` in the inline form into `names`.
fn scan_inline(s: &Vec<char>, names: &mut LevelNames)
    requires
        old(names).wf(),
    ensures
        final(names).wf(),
        final(names)@ == inline_fold(s@, 0, old(names)@),
{
    let n = s.len();
    let mut p: usize = 0;
    while p < n
        invariant
            n == s@.len(),
            p <= n,
            names.wf(),
            inline_fold(s@, 0, old(names)@) == inline_fold(s@, p as int, names@),
        decreases n - p,
    {
        let e = find_char_at(s, p, n, '\n');
        let found = inline_entry_at(s, p, e);
        add_found(names, found);
        if e >= n {
            p = n;
        } else {
            p = e + 1;
        }
    }
}

/// Reads every block of `s` into `names`; names that start with `$` are left out.
fn scan_blocks(s: &Vec<char>, names: &mut LevelNames)
    requires
        old(names).wf(),
    ensures
        final(names).wf(),
        final(names)@ == block_fold(s@, 0, old(names)@),
{
    let n = s.len();
    let mut p: usize = 0;
    while p < n
        invariant
            n == s@.len(),
            p <= n,
            names.wf(),
            block_fold(s@, 0, old(names)@) == block_fold(s@, p as int, names@),
        decreases n - p,
    {
        match block_at_pos(s, p) {
            Some((b, c, x, e)) => {
                proof {
                    lemma_block_at_bounds(s@, p as int);
                }
                let found = match first_levelname_in(s, x, e) {
                    Some((y, z)) => {
                        if z > y && s[y] == '$' {
                            None
                        } else {
                            Some((upper_string_of(s, b, c), string_of(s, y, z)))
                        }
                    },
                    None => None,
                };
                add_found(names, found);
                p = e + 1;
            },
            None => {
                p = p + 1;
            },
        }
    }
}

/// Reads a base or extended metadata lump: first each line in the inline form
/// `map <level> "<name>"`, then each block `map <level> { levelname = "<name>" }`.
/// A level that already has a name keeps it.
pub fn parse_mapinfo(content: &str, names: &mut LevelNames)
    requires
        old(names).wf(),
    ensures
        final(names).wf(),
        final(names)@ == block_fold(content@, 0, inline_fold(content@, 0, old(names)@)),
{
    let s = chars_of(content);
    scan_inline(&s, names);
    scan_blocks(&s, names);
}

/// Reads a universal metadata lump: each block `map <level> { levelname = "<name>" }`,
/// leaving out names that start with `$`. A level that already has a name keeps it.
pub fn parse_umapinfo(content: &str, names: &mut LevelNames)
    requires
        old(names).wf(),
    ensures
        final(names).wf(),
        final(names)@ == block_fold(content@, 0, old(names)@),
{
    let s = chars_of(content);
    scan_blocks(&s, names);
}

} // verus!
