use vstd::prelude::*;

verus! {

/// Why an archive could not be indexed or read.
#[derive(Debug, Clone, Copy, PartialEq, Eq, Structural)]
pub enum WadError {
    /// A read reached past the end of the archive's bytes.
    IoError,
    /// The first four bytes are neither `IWAD` nor `PWAD`.
    InvalidSignature,
    /// Fewer than twelve bytes: no complete header.
    TruncatedHeader,
    /// The directory declares more records than the bytes after its offset hold.
    TruncatedDirectory,
}

/// One record of the lump directory.
#[derive(Debug)]
pub struct LumpEntry {
    pub offset: u32,
    pub size: u32,
    /// The name with trailing NUL bytes removed and ASCII letters in upper case.
    pub name: Vec<u8>,
}

/// An archive's signature and its directory, in file order.
#[derive(Debug)]
pub struct WadIndex {
    pub signature: Vec<u8>,
    pub lumps: Vec<LumpEntry>,
}

pub const HEADER_LEN: usize = 12;

pub const RECORD_LEN: usize = 16;

/// The unsigned value of the four little-endian bytes of `b` starting at `at`.
pub open spec fn le_u32(b: Seq<u8>, at: int) -> nat {
    (b[at] as nat) + (b[at + 1] as nat) * 256 + (b[at + 2] as nat) * 65536 + (b[at + 3] as nat)
        * 16777216
}

/// `IWAD`, the marker of a primary archive.
pub open spec fn iwad() -> Seq<u8> {
    seq![73u8, 87u8, 65u8, 68u8]
}

/// `PWAD`, the marker of a patch archive.
pub open spec fn pwad() -> Seq<u8> {
    seq![80u8, 87u8, 65u8, 68u8]
}

pub open spec fn known_signature(d: Seq<u8>) -> bool {
    d.subrange(0, 4) == iwad() || d.subrange(0, 4) == pwad()
}

pub open spec fn lump_count(d: Seq<u8>) -> nat {
    le_u32(d, 4)
}

pub open spec fn dir_offset(d: Seq<u8>) -> nat {
    le_u32(d, 8)
}

/// The bytes that follow the directory offset; none when it lies past the end.
pub open spec fn bytes_after_directory(d: Seq<u8>) -> nat {
    if dir_offset(d) <= d.len() {
        (d.len() - dir_offset(d)) as nat
    } else {
        0
    }
}

pub open spec fn directory_fits(d: Seq<u8>) -> bool {
    RECORD_LEN * lump_count(d) <= bytes_after_directory(d)
}

/// `b` with its trailing NUL bytes removed.
pub open spec fn trim_nul(b: Seq<u8>) -> Seq<u8>
    decreases b.len(),
{
    if b.len() > 0 && b.last() == 0 {
        trim_nul(b.drop_last())
    } else {
        b
    }
}

pub open spec fn upper_byte(c: u8) -> u8 {
    if 97 <= c <= 122 {
        (c - 32) as u8
    } else {
        c
    }
}

pub open spec fn upper_bytes(b: Seq<u8>) -> Seq<u8> {
    b.map_values(|c: u8| upper_byte(c))
}

/// The normalized name of the record that starts at `at`.
pub open spec fn record_name(d: Seq<u8>, at: int) -> Seq<u8> {
    upper_bytes(trim_nul(d.subrange(at + 8, at + 16)))
}

/// `e` is the record of `d` that starts at `at`.
pub open spec fn record_at(d: Seq<u8>, at: int, e: LumpEntry) -> bool {
    &&& e.offset as nat == le_u32(d, at)
    &&& e.size as nat == le_u32(d, at + 4)
    &&& e.name@ == record_name(d, at)
}

/// `ix` holds the signature and every record of the directory of `d`, in order.
pub open spec fn indexes(d: Seq<u8>, ix: WadIndex) -> bool {
    &&& ix.signature@ == d.subrange(0, 4)
    &&& ix.lumps@.len() == lump_count(d)
    &&& forall|i: int|
        0 <= i < ix.lumps@.len() ==> record_at(
            d,
            dir_offset(d) + RECORD_LEN * i,
            #[trigger] ix.lumps@[i],
        )
}

/// Reads the little-endian `u32` stored at `at`.
pub fn read_le_u32(b: &[u8], at: usize) -> (r: u32)
    requires
        at + 4 <= b@.len(),
    ensures
        r as nat == le_u32(b@, at as int),
{
    let v: u64 = b[at] as u64 + (b[at + 1] as u64) * 256 + (b[at + 2] as u64) * 65536 + (b[at
        + 3] as u64) * 16777216;
    v as u32
}

/// The name of the record at `at`: its eight name bytes without trailing NULs, upper-cased.
pub fn read_record_name(d: &[u8], at: usize) -> (r: Vec<u8>)
    requires
        at + 16 <= d@.len(),
    ensures
        r@ == record_name(d@, at as int),
{
    let _ = d.len();
    let ghost raw = d@.subrange(at + 8, at + 16);
    assert(raw.subrange(0, 8) =~= raw);
    let mut n: usize = 8;
    while n > 0 && d[at + 8 + n - 1] == 0
        invariant
            n <= 8,
            at + 16 <= d@.len() <= usize::MAX,
            raw == d@.subrange(at + 8, at + 16),
            trim_nul(raw) == trim_nul(raw.subrange(0, n as int)),
        decreases n,
    {
        assert(raw.subrange(0, n - 1) =~= raw.subrange(0, n as int).drop_last());
        n = n - 1;
    }
    assert(trim_nul(raw.subrange(0, n as int)) == raw.subrange(0, n as int));
    let mut r: Vec<u8> = Vec::new();
    let mut i: usize = 0;
    while i < n
        invariant
            i <= n <= 8,
            at + 16 <= d@.len() <= usize::MAX,
            raw == d@.subrange(at + 8, at + 16),
            r@ == upper_bytes(raw.subrange(0, i as int)),
        decreases n - i,
    {
        let c = d[at + 8 + i];
        let u = if 97 <= c && c <= 122 {
            c - 32
        } else {
            c
        };
        r.push(u);
        i = i + 1;
        assert(upper_bytes(raw.subrange(0, i as int)) =~= upper_bytes(
            raw.subrange(0, i - 1),
        ).push(u));
    }
    r
}

/// Validates the header of an archive held in `d` and reads its directory.
pub fn open_and_index(d: &[u8]) -> (r: Result<WadIndex, WadError>)
    ensures
        d@.len() < HEADER_LEN ==> r == Err::<WadIndex, WadError>(WadError::TruncatedHeader),
        d@.len() >= HEADER_LEN && !known_signature(d@) ==> r == Err::<WadIndex, WadError>(
            WadError::InvalidSignature,
        ),
        d@.len() >= HEADER_LEN && known_signature(d@) && !directory_fits(d@) ==> r == Err::<
            WadIndex,
            WadError,
        >(WadError::TruncatedDirectory),
        d@.len() >= HEADER_LEN && known_signature(d@) && directory_fits(d@) ==> (r matches Ok(
            ix,
        ) && indexes(d@, ix)),
{
    if d.len() < HEADER_LEN {
        return Err(WadError::TruncatedHeader);
    }
    let iw = d[0] == 73 && d[1] == 87 && d[2] == 65 && d[3] == 68;
    let pw = d[0] == 80 && d[1] == 87 && d[2] == 65 && d[3] == 68;
    assert(iw == (d@.subrange(0, 4) == iwad())) by {
        if d@.subrange(0, 4) == iwad() {
            assert(d@.subrange(0, 4)[0] == d@[0]);
            assert(d@.subrange(0, 4)[1] == d@[1]);
            assert(d@.subrange(0, 4)[2] == d@[2]);
            assert(d@.subrange(0, 4)[3] == d@[3]);
        }
        if iw {
            assert(d@.subrange(0, 4) =~= iwad());
        }
    }
    assert(pw == (d@.subrange(0, 4) == pwad())) by {
        if d@.subrange(0, 4) == pwad() {
            assert(d@.subrange(0, 4)[0] == d@[0]);
            assert(d@.subrange(0, 4)[1] == d@[1]);
            assert(d@.subrange(0, 4)[2] == d@[2]);
            assert(d@.subrange(0, 4)[3] == d@[3]);
        }
        if pw {
            assert(d@.subrange(0, 4) =~= pwad());
        }
    }
    if !iw && !pw {
        return Err(WadError::InvalidSignature);
    }
    let count = read_le_u32(d, 4);
    let dir = read_le_u32(d, 8);
    let remaining: u64 = if (dir as usize) <= d.len() {
        (d.len() - dir as usize) as u64
    } else {
        0
    };
    if (count as u64) * 16 > remaining {
        return Err(WadError::TruncatedDirectory);
    }
    let mut lumps: Vec<LumpEntry> = Vec::new();
    let mut i: usize = 0;
    while i < count as usize
        invariant
            count as nat == lump_count(d@),
            dir as nat == dir_offset(d@),
            directory_fits(d@),
            d@.len() <= usize::MAX,
            i <= count,
            lumps@.len() == i,
            forall|j: int|
                0 <= j < i ==> record_at(d@, dir_offset(d@) + RECORD_LEN * j, #[trigger] lumps@[j]),
        decreases count - i,
    {
        let at: usize = dir as usize + 16 * i;
        let offset = read_le_u32(d, at);
        let size = read_le_u32(d, at + 4);
        let name = read_record_name(d, at);
        lumps.push(LumpEntry { offset, size, name });
        i = i + 1;
    }
    let signature = vec![d[0], d[1], d[2], d[3]];
    assert(signature@ =~= d@.subrange(0, 4));
    Ok(WadIndex { signature, lumps })
}

} // verus!
