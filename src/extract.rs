use vstd::prelude::*;
use vstd::slice::slice_subrange;
use crate::dehacked::{
    dehacked_fold, lemma_dehacked_fold_keeps, lemma_dehacked_fold_same_at, parse_dehacked,
};
use crate::mapinfo::{
    block_entry_at, block_fold, inline_entry, inline_fold, lemma_block_fold_keeps,
    lemma_inline_fold_keeps, lemma_mapinfo_leaves_level, parse_mapinfo, parse_umapinfo,
};
use crate::names::{entry_for, same_at};
use crate::scan::find_char;
use crate::names::LevelNames;
use crate::text::{lossy_text, text_of_bytes};
use crate::wad::{
    dir_offset, directory_fits, indexes, known_signature, le_u32, lump_count, open_and_index,
    record_name, LumpEntry, WadError, WadIndex, HEADER_LEN, RECORD_LEN,
};

verus! {

/// `ZMAPINFO`, the extended metadata lump.
pub open spec fn zmapinfo() -> Seq<u8> {
    seq![90u8, 77u8, 65u8, 80u8, 73u8, 78u8, 70u8, 79u8]
}

/// `UMAPINFO`, the universal metadata lump.
pub open spec fn umapinfo() -> Seq<u8> {
    seq![85u8, 77u8, 65u8, 80u8, 73u8, 78u8, 70u8, 79u8]
}

/// `MAPINFO`, the base metadata lump.
pub open spec fn mapinfo() -> Seq<u8> {
    seq![77u8, 65u8, 80u8, 73u8, 78u8, 70u8, 79u8]
}

/// `DEHACKED`, the legacy string-table lump.
pub open spec fn dehacked() -> Seq<u8> {
    seq![68u8, 69u8, 72u8, 65u8, 67u8, 75u8, 69u8, 68u8]
}

/// The start of directory record `i` of `d`.
pub open spec fn record_start(d: Seq<u8>, i: int) -> int {
    dir_offset(d) + RECORD_LEN * i
}

/// The first directory record, from `i` on, whose name is `name`.
pub open spec fn first_record(d: Seq<u8>, name: Seq<u8>, i: int) -> Option<int>
    decreases lump_count(d) - i,
{
    if i < 0 || i >= lump_count(d) {
        None
    } else if record_name(d, record_start(d, i)) == name {
        Some(i)
    } else {
        first_record(d, name, i + 1)
    }
}

/// The text of the first lump named `name`: none where there is no such lump, an error where
/// the lump reaches past the end of `d`.
pub open spec fn lump_text(d: Seq<u8>, name: Seq<u8>) -> Result<Option<Seq<char>>, WadError> {
    match first_record(d, name, 0) {
        None => Ok(None),
        Some(i) => {
            let off = le_u32(d, record_start(d, i));
            let size = le_u32(d, record_start(d, i) + 4);
            if off + size > d.len() {
                Err(WadError::IoError)
            } else {
                Ok(Some(lossy_text(d.subrange(off as int, (off + size) as int))))
            }
        },
    }
}

/// The names that a base or extended metadata text adds to `m`.
pub open spec fn mapinfo_names(t: Seq<char>, m: Map<Seq<char>, Seq<char>>) -> Map<
    Seq<char>,
    Seq<char>,
> {
    block_fold(t, 0, inline_fold(t, 0, m))
}

/// The names that a universal metadata text adds to `m`.
pub open spec fn umapinfo_names(t: Seq<char>, m: Map<Seq<char>, Seq<char>>) -> Map<
    Seq<char>,
    Seq<char>,
> {
    block_fold(t, 0, m)
}

/// The names that a legacy string-table text adds to `m`.
pub open spec fn dehacked_names(t: Seq<char>, m: Map<Seq<char>, Seq<char>>) -> Map<
    Seq<char>,
    Seq<char>,
> {
    dehacked_fold(t, 0, false, m)
}

/// The first stage: the names of the extended metadata lump.
pub open spec fn stage_one(z: Option<Seq<char>>) -> Map<Seq<char>, Seq<char>> {
    match z {
        Some(t) => mapinfo_names(t, Map::empty()),
        None => Map::empty(),
    }
}

/// The later stages, in order, each adding only levels that are still without a name.
pub open spec fn later_stages(
    u: Option<Seq<char>>,
    b: Option<Seq<char>>,
    h: Option<Seq<char>>,
    m: Map<Seq<char>, Seq<char>>,
) -> Map<Seq<char>, Seq<char>> {
    let m2 = match u {
        Some(t) => umapinfo_names(t, m),
        None => m,
    };
    let m3 = match b {
        Some(t) => mapinfo_names(t, m2),
        None => m2,
    };
    match h {
        Some(t) => dehacked_names(t, m3),
        None => m3,
    }
}

/// The level names of the archive `d`, or why they cannot be read.
pub open spec fn extraction(d: Seq<u8>) -> Result<Map<Seq<char>, Seq<char>>, WadError> {
    if d.len() < HEADER_LEN {
        Err(WadError::TruncatedHeader)
    } else if !known_signature(d) {
        Err(WadError::InvalidSignature)
    } else if !directory_fits(d) {
        Err(WadError::TruncatedDirectory)
    } else {
        match (
            lump_text(d, zmapinfo()),
            lump_text(d, umapinfo()),
            lump_text(d, mapinfo()),
            lump_text(d, dehacked()),
        ) {
            (Err(e), _, _, _) => Err(e),
            (Ok(_), Err(e), _, _) => Err(e),
            (Ok(_), Ok(_), Err(e), _) => Err(e),
            (Ok(_), Ok(_), Ok(_), Err(e)) => Err(e),
            (Ok(z), Ok(u), Ok(b), Ok(h)) => Ok(later_stages(u, b, h, stage_one(z))),
        }
    }
}

/// The later stages never change a level that an earlier stage named.
pub proof fn lemma_later_stages_keep(
    u: Option<Seq<char>>,
    b: Option<Seq<char>>,
    h: Option<Seq<char>>,
    m: Map<Seq<char>, Seq<char>>,
    k: Seq<char>,
)
    requires
        m.contains_key(k),
    ensures
        later_stages(u, b, h, m).contains_key(k),
        later_stages(u, b, h, m)[k] == m[k],
{
    let m2 = match u {
        Some(t) => umapinfo_names(t, m),
        None => m,
    };
    if let Some(t) = u {
        lemma_block_fold_keeps(t, 0, m, k);
    }
    let m3 = match b {
        Some(t) => mapinfo_names(t, m2),
        None => m2,
    };
    if let Some(t) = b {
        lemma_inline_fold_keeps(t, 0, m2, k);
        lemma_block_fold_keeps(t, 0, inline_fold(t, 0, m2), k);
    }
    if let Some(t) = h {
        lemma_dehacked_fold_keeps(t, 0, false, m3, k);
    }
}

/// The extended metadata lump takes precedence: a level that it names keeps that name,
/// whatever the universal, base and string-table lumps say of it.
pub proof fn lemma_extended_metadata_wins(d: Seq<u8>, t: Seq<char>, k: Seq<char>)
    requires
        extraction(d) is Ok,
        lump_text(d, zmapinfo()) == Ok::<Option<Seq<char>>, WadError>(Some(t)),
        mapinfo_names(t, Map::empty()).contains_key(k),
    ensures
        extraction(d)->Ok_0.contains_key(k),
        extraction(d)->Ok_0[k] == mapinfo_names(t, Map::empty())[k],
{
    let u = lump_text(d, umapinfo())->Ok_0;
    let b = lump_text(d, mapinfo())->Ok_0;
    let h = lump_text(d, dehacked())->Ok_0;
    lemma_later_stages_keep(u, b, h, stage_one(Some(t)), k);
}

/// A level that the extended metadata lump leaves unnamed (its declarations there name a
/// reference, or nothing) is named by the string table, where neither the universal nor the
/// base metadata lump exists.
pub proof fn lemma_string_table_fills(d: Seq<u8>, t: Seq<char>, h: Seq<char>, k: Seq<char>)
    requires
        extraction(d) is Ok,
        lump_text(d, zmapinfo()) == Ok::<Option<Seq<char>>, WadError>(Some(t)),
        lump_text(d, umapinfo()) == Ok::<Option<Seq<char>>, WadError>(None),
        lump_text(d, mapinfo()) == Ok::<Option<Seq<char>>, WadError>(None),
        lump_text(d, dehacked()) == Ok::<Option<Seq<char>>, WadError>(Some(h)),
        forall|q: int|
            0 <= q < t.len() ==> !entry_for(
                #[trigger] inline_entry(t, q, find_char(t, q, t.len() as int, '\n')),
                k,
            ),
        forall|q: int| 0 <= q < t.len() ==> !entry_for(#[trigger] block_entry_at(t, q), k),
    ensures
        same_at(extraction(d)->Ok_0, dehacked_names(h, Map::empty()), k),
{
    let m1 = stage_one(Some(t));
    lemma_mapinfo_leaves_level(t, Map::empty(), k);
    assert(same_at(m1, Map::empty(), k));
    lemma_dehacked_fold_same_at(h, 0, false, m1, Map::empty(), k);
}

/// Extraction depends on the archive's bytes alone: reading the same bytes twice gives the
/// same names, or the same error.
pub proof fn lemma_extraction_repeatable(d1: Seq<u8>, d2: Seq<u8>)
    requires
        d1 == d2,
    ensures
        extraction(d1) == extraction(d2),
{
}

/// Whether `e` is named `name`.
fn has_name(e: &LumpEntry, name: &[u8]) -> (r: bool)
    ensures
        r == (e.name@ == name@),
{
    if e.name.len() != name.len() {
        return false;
    }
    let mut i: usize = 0;
    while i < name.len()
        invariant
            e.name@.len() == name@.len(),
            i <= name@.len(),
            forall|j: int| 0 <= j < i ==> e.name@[j] == name@[j],
        decreases name@.len() - i,
    {
        if e.name[i] != name[i] {
            return false;
        }
        i = i + 1;
    }
    assert(e.name@ =~= name@);
    true
}

/// The index of the first lump of `ix` named `name`.
pub fn find_lump(d: &[u8], ix: &WadIndex, name: &[u8]) -> (r: Option<usize>)
    requires
        indexes(d@, *ix),
    ensures
        r matches Some(i) ==> i < ix.lumps@.len() && first_record(d@, name@, 0) == Some(i as int),
        r is None ==> first_record(d@, name@, 0) is None,
{
    let mut i: usize = 0;
    while i < ix.lumps.len()
        invariant
            indexes(d@, *ix),
            i <= ix.lumps@.len(),
            first_record(d@, name@, 0) == first_record(d@, name@, i as int),
        decreases ix.lumps@.len() - i,
    {
        assert(crate::wad::record_at(d@, record_start(d@, i as int), ix.lumps@[i as int]));
        if has_name(&ix.lumps[i], name) {
            return Some(i);
        }
        i = i + 1;
    }
    None
}

/// The text of the first lump of `ix` named `name`, as `lump_text` says.
fn read_lump_text(d: &[u8], ix: &WadIndex, name: &[u8]) -> (r: Result<Option<String>, WadError>)
    requires
        indexes(d@, *ix),
    ensures
        r matches Ok(Some(t)) ==> lump_text(d@, name@) == Ok::<Option<Seq<char>>, WadError>(
            Some(t@),
        ),
        r matches Ok(None) ==> lump_text(d@, name@) == Ok::<Option<Seq<char>>, WadError>(None),
        r matches Err(e) ==> lump_text(d@, name@) == Err::<Option<Seq<char>>, WadError>(e),
{
    match find_lump(d, ix, name) {
        None => Ok(None),
        Some(i) => {
            let e = &ix.lumps[i];
            assert(crate::wad::record_at(d@, record_start(d@, i as int), ix.lumps@[i as int]));
            let end: u64 = e.offset as u64 + e.size as u64;
            if end > d.len() as u64 {
                return Err(WadError::IoError);
            }
            let bytes = slice_subrange(d, e.offset as usize, end as usize);
            Ok(Some(text_of_bytes(bytes)))
        },
    }
}

/// Reads the level names of the archive held in `d`. The extended metadata lump is read first,
/// then the universal, then the base metadata lump, then the legacy string table; a level keeps
/// the first name that it is given.
pub fn extract_level_names(d: &[u8]) -> (r: Result<LevelNames, WadError>)
    ensures
        r matches Ok(n) ==> n.wf() && extraction(d@) == Ok::<
            Map<Seq<char>, Seq<char>>,
            WadError,
        >(n@),
        r matches Err(e) ==> extraction(d@) == Err::<Map<Seq<char>, Seq<char>>, WadError>(e),
{
    let ix = match open_and_index(d) {
        Ok(ix) => ix,
        Err(e) => {
            return Err(e);
        },
    };
    let z = read_lump_text(d, &ix, &[90u8, 77, 65, 80, 73, 78, 70, 79]);
    let u = read_lump_text(d, &ix, &[85u8, 77, 65, 80, 73, 78, 70, 79]);
    let b = read_lump_text(d, &ix, &[77u8, 65, 80, 73, 78, 70, 79]);
    let h = read_lump_text(d, &ix, &[68u8, 69, 72, 65, 67, 75, 69, 68]);
    assert([90u8, 77, 65, 80, 73, 78, 70, 79]@ == zmapinfo());
    assert([85u8, 77, 65, 80, 73, 78, 70, 79]@ == umapinfo());
    assert([77u8, 65, 80, 73, 78, 70, 79]@ == mapinfo());
    assert([68u8, 69, 72, 65, 67, 75, 69, 68]@ == dehacked());
    let mut names = LevelNames::new();
    match z {
        Err(e) => {
            return Err(e);
        },
        Ok(Some(t)) => parse_mapinfo(t.as_str(), &mut names),
        Ok(None) => {},
    }
    match u {
        Err(e) => {
            return Err(e);
        },
        Ok(Some(t)) => parse_umapinfo(t.as_str(), &mut names),
        Ok(None) => {},
    }
    match b {
        Err(e) => {
            return Err(e);
        },
        Ok(Some(t)) => parse_mapinfo(t.as_str(), &mut names),
        Ok(None) => {},
    }
    match h {
        Err(e) => {
            return Err(e);
        },
        Ok(Some(t)) => parse_dehacked(t.as_str(), &mut names),
        Ok(None) => {},
    }
    Ok(names)
}

} // verus!
