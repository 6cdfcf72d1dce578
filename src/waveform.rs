use vstd::prelude::*;

use crate::byte_reader::{
    le_u16, le_u24, le_u32, le_value, skip, take, take_const, u8, ByteReader, ReadError,
};
use crate::checksum::{additive_checksum, checksum_of};
use crate::phase::{cell_phase, is_legal_cell, lemma_legal_cell_phases, Phase, PhaseCell};

verus! {

/// The number of bytes that the file header occupies.
pub const HEADER_LEN: usize = 48;

/// The fixed header at the start of a waveform file.
#[derive(Debug, Clone, Copy, PartialEq, Eq, Structural)]
pub struct Header {
    pub checksum: u32,
    pub filesize: u32,
    pub serial: u32,
    pub run_type: u8,
    pub fpl_platform: u8,
    pub fpl_lot: u16,
    pub adhesive_run: u8,
    pub waveform_version: u8,
    pub waveform_subversion: u8,
    pub waveform_type: u8,
    pub fpl_size: u8,
    pub mfg_code: u8,
    pub waveform_revision: u8,
    pub old_frame_rate: u8,
    pub frame_rate: u8,
    pub vcom_offset: u8,
    pub extra_info_addr: u32,
    pub checksum1: u8,
    pub wmta: u32,
    pub fvsn: u8,
    pub luts: u8,
    pub mode_count: u8,
    pub temp_range_count: u8,
    pub advanced_wfm_flags: u8,
    pub eb: u8,
    pub sb: u8,
    pub checksum2: u8,
}

/// Why decoding a waveform file failed.
#[derive(Debug, PartialEq, Eq)]
pub enum Error {
    /// A checksum byte does not match the bytes it protects.
    InvalidChecksum { field: String, expected: u8, actual: u8 },
    /// A phase cell byte holds the illegal two-bit group `0b11`.
    InvalidPhase(u8),
    /// The data ended early, or a seek failed.
    Read(ReadError),
}

/// The little-endian integer held in `data[p .. p + n]`.
pub open spec fn le_at(data: Seq<u8>, p: int, n: int) -> nat {
    le_value(data.subrange(p, p + n))
}

/// The header whose first byte stands at `data[p]`.
pub open spec fn header_at(data: Seq<u8>, p: int) -> Header {
    Header {
        checksum: le_at(data, p, 4) as u32,
        filesize: le_at(data, p + 4, 4) as u32,
        serial: le_at(data, p + 8, 4) as u32,
        run_type: data[p + 12],
        fpl_platform: data[p + 13],
        fpl_lot: le_at(data, p + 14, 2) as u16,
        adhesive_run: data[p + 16],
        waveform_version: data[p + 17],
        waveform_subversion: data[p + 18],
        waveform_type: data[p + 19],
        fpl_size: data[p + 20],
        mfg_code: data[p + 21],
        waveform_revision: data[p + 22],
        old_frame_rate: data[p + 23],
        frame_rate: data[p + 24],
        vcom_offset: data[p + 25],
        extra_info_addr: le_at(data, p + 28, 3) as u32,
        checksum1: data[p + 31],
        wmta: le_at(data, p + 32, 3) as u32,
        fvsn: data[p + 35],
        luts: data[p + 36],
        mode_count: data[p + 37],
        temp_range_count: data[p + 38],
        advanced_wfm_flags: data[p + 39],
        eb: data[p + 40],
        sb: data[p + 41],
        checksum2: data[p + 47],
    }
}

/// The error for data that ends too early.
pub open spec fn eof() -> Error {
    Error::Read(ReadError::UnexpectedEof)
}

/// Whether `e` is a checksum error on `field` that found `actual` where `expected` was stored.
pub open spec fn is_checksum_error(e: Error, field: Seq<char>, expected: u8, actual: u8) -> bool {
    match e {
        Error::InvalidChecksum { field: f, expected: x, actual: a } => f@ == field && x == expected
            && a == actual,
        _ => false,
    }
}

/// Parses the header at the reader's position.
pub fn header(input: &mut ByteReader) -> (r: Result<Header, Error>)
    requires
        old(input).wf(),
    ensures
        final(input).wf(),
        final(input).data() == old(input).data(),
        old(input).has(48) ==> r == Ok::<Header, Error>(
            header_at(old(input).data(), old(input).pos() as int),
        ) && final(input).pos() == old(input).pos() + 48,
        !old(input).has(48) ==> r == Err::<Header, Error>(eof()) && final(input).pos()
            == old(input).pos(),
{
    if input.remaining() < HEADER_LEN as u64 {
        return Err(Error::Read(ReadError::UnexpectedEof));
    }
    let checksum = le_u32(input).unwrap();
    let filesize = le_u32(input).unwrap();
    let serial = le_u32(input).unwrap();
    let run_type = u8(input).unwrap();
    let fpl_platform = u8(input).unwrap();
    let fpl_lot = le_u16(input).unwrap();
    let adhesive_run = u8(input).unwrap();
    let waveform_version = u8(input).unwrap();
    let waveform_subversion = u8(input).unwrap();
    let waveform_type = u8(input).unwrap();
    let fpl_size = u8(input).unwrap();
    let mfg_code = u8(input).unwrap();
    let waveform_revision = u8(input).unwrap();
    let old_frame_rate = u8(input).unwrap();
    let frame_rate = u8(input).unwrap();
    let vcom_offset = u8(input).unwrap();
    skip(2, input).unwrap();
    let extra_info_addr = le_u24(input).unwrap();
    let checksum1 = u8(input).unwrap();
    let wmta = le_u24(input).unwrap();
    let fvsn = u8(input).unwrap();
    let luts = u8(input).unwrap();
    let mode_count = u8(input).unwrap();
    let temp_range_count = u8(input).unwrap();
    let advanced_wfm_flags = u8(input).unwrap();
    let eb = u8(input).unwrap();
    let sb = u8(input).unwrap();
    skip(5, input).unwrap();
    let checksum2 = u8(input).unwrap();

    Ok(Header {
        checksum,
        filesize,
        serial,
        run_type,
        fpl_platform,
        fpl_lot,
        adhesive_run,
        waveform_version,
        waveform_subversion,
        waveform_type,
        fpl_size,
        mfg_code,
        waveform_revision,
        old_frame_rate,
        frame_rate,
        vcom_offset,
        extra_info_addr,
        checksum1,
        wmta,
        fvsn,
        luts,
        mode_count,
        temp_range_count,
        advanced_wfm_flags,
        eb,
        sb,
        checksum2,
    })
}

/// The address held by a valid pointer record at `data[p]`: three address bytes, least
/// significant first, then their checksum.
pub open spec fn pointer_at(data: Seq<u8>, p: int) -> Option<u32> {
    if 0 <= p && p + 4 <= data.len() && checksum_of(data.subrange(p, p + 3)) == data[p + 3] {
        Some(le_at(data, p, 3) as u32)
    } else {
        None
    }
}

/// Whether decoding the pointer record at `data[p]` fails with `e`: the data ends first, or the
/// checksum does not match.
pub open spec fn pointer_fails_with(data: Seq<u8>, p: int, e: Error) -> bool {
    if p + 4 > data.len() {
        e == eof()
    } else {
        pointer_at(data, p) is None && is_checksum_error(
            e,
            "pointer"@,
            data[p + 3],
            checksum_of(data.subrange(p, p + 3)),
        )
    }
}

/// Decodes the pointer record at the reader's position.
pub fn pointer(input: &mut ByteReader) -> (r: Result<u32, Error>)
    requires
        old(input).wf(),
    ensures
        final(input).wf(),
        final(input).data() == old(input).data(),
        ({
            let (data, p) = (old(input).data(), old(input).pos() as int);
            &&& !old(input).has(4) ==> r == Err::<u32, Error>(eof()) && final(input).pos() == p
            &&& old(input).has(4) ==> final(input).pos() == p + 4
            &&& old(input).has(4) && pointer_at(data, p) is None ==> r is Err && is_checksum_error(
                r->Err_0,
                "pointer"@,
                data[p + 3],
                checksum_of(data.subrange(p, p + 3)),
            )
            &&& pointer_at(data, p) matches Some(a) ==> r == Ok::<u32, Error>(a)
            &&& r matches Err(e) ==> pointer_fails_with(data, p, e)
        }),
{
    if input.remaining() < 4 {
        return Err(Error::Read(ReadError::UnexpectedEof));
    }
    let bytes: [u8; 3] = take_const(input).unwrap();
    let checksum = u8(input).unwrap();
    let actual = additive_checksum(&bytes);
    if actual != checksum {
        proof {
            reveal_strlit("pointer");
        }
        return Err(Error::InvalidChecksum { field: "pointer".to_owned(), expected: checksum, actual });
    }
    Ok(crate::byte_reader::u24_from_le_bytes(bytes))
}

/// Reads the temperature table: `count + 2` boundary bytes, then their checksum.
pub fn temperatures(count: usize, input: &mut ByteReader) -> (r: Result<Vec<u8>, Error>)
    requires
        old(input).wf(),
    ensures
        final(input).wf(),
        final(input).data() == old(input).data(),
        ({
            let (data, p, n) = (old(input).data(), old(input).pos() as int, count + 2);
            let (table, stored) = (data.subrange(p, p + n), data[p + n]);
            &&& !old(input).has(n + 1) ==> r == Err::<Vec<u8>, Error>(eof()) && final(input).pos()
                == p
            &&& old(input).has(n + 1) ==> final(input).pos() == p + n + 1
            &&& old(input).has(n + 1) && checksum_of(table) != stored ==> r is Err
                && is_checksum_error(r->Err_0, "temperatures"@, stored, checksum_of(table))
            &&& old(input).has(n + 1) && checksum_of(table) == stored ==> r is Ok && r->Ok_0@
                == table
        }),
{
    let remaining = input.remaining();
    if count as u64 > remaining || remaining - (count as u64) < 3 {
        return Err(Error::Read(ReadError::UnexpectedEof));
    }
    let table = take(count + 2, input).unwrap();
    let stored = u8(input).unwrap();
    let actual = additive_checksum(table.as_slice());
    if actual != stored {
        proof {
            reveal_strlit("temperatures");
        }
        return Err(
            Error::InvalidChecksum { field: "temperatures".to_owned(), expected: stored, actual },
        );
    }
    Ok(table)
}

/// Reads the filename block: a length byte, that many bytes of name, then their checksum.
pub fn filename(input: &mut ByteReader) -> (r: Result<Vec<u8>, Error>)
    requires
        old(input).wf(),
    ensures
        final(input).wf(),
        final(input).data() == old(input).data(),
        ({
            let (data, p) = (old(input).data(), old(input).pos() as int);
            let n = data[p] as int;
            let (name, stored) = (data.subrange(p + 1, p + 1 + n), data[p + 1 + n]);
            &&& !(old(input).has(1) && old(input).has(n + 2)) ==> r == Err::<Vec<u8>, Error>(eof())
                && final(input).pos() == p
            &&& old(input).has(1) && old(input).has(n + 2) ==> final(input).pos() == p + n + 2
            &&& old(input).has(1) && old(input).has(n + 2) && checksum_of(name) != stored ==> r is Err
                && is_checksum_error(r->Err_0, "filename"@, stored, checksum_of(name))
            &&& old(input).has(1) && old(input).has(n + 2) && checksum_of(name) == stored ==> r is Ok
                && r->Ok_0@ == name
        }),
{
    let remaining = input.remaining();
    if remaining < 1 {
        return Err(Error::Read(ReadError::UnexpectedEof));
    }
    let start = input.position();
    let len = u8(input).unwrap();
    if remaining - 1 < len as u64 + 1 {
        input.seek(start);
        return Err(Error::Read(ReadError::UnexpectedEof));
    }
    let name = take(len as usize, input).unwrap();
    let stored = u8(input).unwrap();
    let actual = additive_checksum(name.as_slice());
    if actual != stored {
        proof {
            reveal_strlit("filename");
        }
        return Err(Error::InvalidChecksum { field: "filename".to_owned(), expected: stored, actual });
    }
    Ok(name)
}

/// The pointer to row `r` of the block index, whose row pointers start at `base`.
pub open spec fn row_pointer(data: Seq<u8>, base: int, r: int) -> Option<u32> {
    pointer_at(data, base + 4 * r)
}

/// The `t + 1` addresses of a row whose pointers start at `start`.
pub open spec fn row_addresses(data: Seq<u8>, start: int, t: int) -> Seq<u32> {
    Seq::new((t + 1) as nat, |k: int| pointer_at(data, start + 4 * k)->Some_0)
}

/// Whether row `r` of the block index and all `t + 1` pointers in it are valid.
pub open spec fn row_resolves(data: Seq<u8>, base: int, r: int, t: int) -> bool {
    &&& row_pointer(data, base, r) is Some
    &&& forall|k: int|
        0 <= k <= t ==> (#[trigger] pointer_at(data, row_pointer(data, base, r)->Some_0 + 4 * k)) is Some
}

/// Whether resolving row `r` of the block index fails with `e`: its row pointer fails, or one
/// of its pointers fails after those before it decoded.
pub open spec fn row_fails_with(data: Seq<u8>, base: int, r: int, t: int, e: Error) -> bool {
    match row_pointer(data, base, r) {
        None => pointer_fails_with(data, base + 4 * r, e),
        Some(o) => exists|k: int|
            0 <= k <= t && (forall|kk: int|
                0 <= kk < k ==> (#[trigger] pointer_at(data, o + 4 * kk)) is Some)
                && #[trigger] pointer_fails_with(data, o + 4 * k, e),
    }
}

/// The addresses of the first `rows` rows of the block index, one row after another.
pub open spec fn block_table(data: Seq<u8>, base: int, rows: nat, t: int) -> Seq<u32>
    decreases rows,
{
    if rows == 0 {
        Seq::empty()
    } else {
        block_table(data, base, (rows - 1) as nat, t) + row_addresses(
            data,
            row_pointer(data, base, rows - 1)->Some_0 as int,
            t,
        )
    }
}

/// Resolves the block index at the reader's position: `mode_count + 1` rows of
/// `temperatures_count + 1` addresses each, returned row after row.
///
/// The pointer to row `r` is always read at `base + 4 * r`, however far the rows before it
/// reach into the data.
pub fn find_waveform_blocks(
    mode_count: usize,
    temperatures_count: usize,
    input: &mut ByteReader,
) -> (r: Result<Vec<u32>, Error>)
    requires
        old(input).wf(),
    ensures
        final(input).wf(),
        final(input).data() == old(input).data(),
        r is Ok <==> forall|row: int|
            0 <= row <= mode_count ==> #[trigger] row_resolves(
                old(input).data(),
                old(input).pos() as int,
                row,
                temperatures_count as int,
            ),
        r is Ok ==> r->Ok_0@ == block_table(
            old(input).data(),
            old(input).pos() as int,
            (mode_count + 1) as nat,
            temperatures_count as int,
        ) && final(input).pos() == old(input).pos() + 4 * (mode_count + 1),
        r matches Err(e) ==> exists|row: int|
            0 <= row <= mode_count && (forall|rr: int|
                0 <= rr < row ==> #[trigger] row_resolves(
                    old(input).data(),
                    old(input).pos() as int,
                    rr,
                    temperatures_count as int,
                )) && #[trigger] row_fails_with(
                old(input).data(),
                old(input).pos() as int,
                row,
                temperatures_count as int,
                e,
            ),
{
    let ghost data = input.data();
    let ghost t = temperatures_count as int;
    let base = input.position();
    let mut addresses: Vec<u32> = Vec::new();
    let mut row: usize = 0;
    while row <= mode_count
        invariant
            input.wf(),
            input.data() == data,
            data == old(input).data(),
            base == old(input).pos(),
            t == temperatures_count,
            row <= mode_count + 1,
            input.pos() == base + 4 * row,
            forall|rr: int| 0 <= rr < row ==> #[trigger] row_resolves(data, base as int, rr, t),
            addresses@ == block_table(data, base as int, row as nat, t),
        decreases mode_count + 1 - row,
    {
        let offset = match pointer(input) {
            Ok(a) => a,
            Err(e) => {
                assert(!row_resolves(data, base as int, row as int, t));
                assert(!(forall|rr: int| 0 <= rr <= mode_count ==> #[trigger] row_resolves(data, base as int, rr, t)));
                assert(row_fails_with(data, base as int, row as int, t, e));
                return Err(e);
            },
        };
        assert(row_pointer(data, base as int, row as int) == Some(offset));
        let ghost start = offset as int;
        input.seek(offset as u64);
        let ghost done = addresses@;
        let mut k: usize = 0;
        while k <= temperatures_count
            invariant
                input.wf(),
                input.data() == data,
                data == old(input).data(),
                base == old(input).pos(),
                t == temperatures_count,
                row <= mode_count,
                forall|rr: int| 0 <= rr < row ==> #[trigger] row_resolves(data, base as int, rr, t),
                k <= temperatures_count + 1,
                start == offset as int,
                input.pos() == start + 4 * k,
                row_pointer(data, base as int, row as int) == Some(offset),
                forall|kk: int| 0 <= kk < k ==> (#[trigger] pointer_at(data, start + 4 * kk)) is Some,
                addresses@ == done + row_addresses(data, start, t).take(k as int),
            decreases temperatures_count + 1 - k,
        {
            let address = match pointer(input) {
                Ok(a) => a,
                Err(e) => {
                    assert(pointer_at(data, start + 4 * k) is None);
                    assert(pointer_at(data, row_pointer(data, base as int, row as int)->Some_0 + 4 * k) is None);
                    assert(!row_resolves(data, base as int, row as int, t));
                    assert(!(forall|rr: int| 0 <= rr <= mode_count ==> #[trigger] row_resolves(data, base as int, rr, t)));
                    assert(pointer_fails_with(data, start + 4 * k, e));
                    assert(row_fails_with(data, base as int, row as int, t, e));
                    return Err(e);
                },
            };
            assert(input.pos() == start + 4 * k + 4);
            assert(k < usize::MAX);
            assert(pointer_at(data, start + 4 * k) == Some(address));
            addresses.push(address);
            assert(row_addresses(data, start, t).take(k + 1) =~= row_addresses(data, start, t).take(
                k as int,
            ).push(address));
            k += 1;
        }
        assert(row_addresses(data, start, t).take(k as int) =~= row_addresses(data, start, t));
        assert(row_resolves(data, base as int, row as int, t));
        input.seek(base + (row as u64 + 1) * 4);
        row += 1;
    }
    Ok(addresses)
}

/// The number of intensity levels, which index both sides of a phase matrix.
pub const INTENSITY_VALUES: usize = 32;

/// The place of source intensity `j` and destination intensity `i` in a matrix held row by row.
pub open spec fn cell_index(j: int, i: int) -> int {
    32 * j + i
}

/// One refresh step's transition rule: the phase for each pair of source and destination
/// intensity.
#[derive(Debug, PartialEq, Eq)]
pub struct PhaseMatrix {
    cells: Vec<Phase>,
}

impl View for PhaseMatrix {
    type V = Seq<Phase>;

    closed spec fn view(&self) -> Seq<Phase> {
        self.cells@
    }
}

impl PhaseMatrix {
    fn blank() -> (r: PhaseMatrix)
        ensures
            r@.len() == 1024,
    {
        PhaseMatrix { cells: vec![Phase::Noop; 1024] }
    }

    /// The phase for going from intensity `source` to intensity `destination`.
    pub fn get(&self, source: usize, destination: usize) -> (r: Option<Phase>)
        ensures
            source < 32 && destination < 32 && self@.len() == 1024 ==> r == Some(
                self@[cell_index(source as int, destination as int)],
            ),
            !(source < 32 && destination < 32) ==> r is None,
    {
        if source < INTENSITY_VALUES && destination < INTENSITY_VALUES && self.cells.len() == 1024 {
            Some(self.cells[32 * source + destination])
        } else {
            None
        }
    }
}

/// `p` followed by the cells of `r`, or the error of `r`.
pub open spec fn prepend(p: Seq<u8>, r: Result<Seq<u8>, Error>) -> Result<Seq<u8>, Error> {
    match r {
        Ok(s) => Ok(p + s),
        Err(e) => Err(e),
    }
}

/// The cells that the encoded block in `data[pos .. end]` expands to, each run written out,
/// in the order in which they fill matrices; or the error that stops the decoding.
///
/// A byte `0xFC` toggles the repeat mode and `0xFF` ends the block. Any other byte is a cell,
/// followed in repeat mode by a byte one less than the number of times it repeats.
pub open spec fn block_cells(data: Seq<u8>, end: int, pos: int, repeat_mode: bool) -> Result<
    Seq<u8>,
    Error,
>
    decreases data.len() - pos,
{
    if pos < 0 || pos >= end {
        Ok(Seq::empty())
    } else if pos >= data.len() {
        Err(eof())
    } else if data[pos] == 0xFC {
        block_cells(data, end, pos + 1, !repeat_mode)
    } else if data[pos] == 0xFF {
        Ok(Seq::empty())
    } else if !is_legal_cell(data[pos]) {
        Err(Error::InvalidPhase(data[pos]))
    } else if !repeat_mode {
        prepend(seq![data[pos]], block_cells(data, end, pos + 1, repeat_mode))
    } else if pos + 1 >= data.len() {
        Err(eof())
    } else {
        prepend(
            Seq::new(data[pos + 1] as nat + 1, |n: int| data[pos]),
            block_cells(data, end, pos + 2, repeat_mode),
        )
    }
}

/// Where the reader stands once decoding the block from `pos` ends without error: just past
/// the `0xFF` that ends it, or at the first position at or past `end` that a byte boundary
/// reaches.
pub open spec fn block_end(data: Seq<u8>, end: int, pos: int, repeat_mode: bool) -> int
    decreases data.len() - pos,
{
    if pos < 0 || pos >= end || pos >= data.len() {
        pos
    } else if data[pos] == 0xFC {
        block_end(data, end, pos + 1, !repeat_mode)
    } else if data[pos] == 0xFF {
        pos + 1
    } else if !is_legal_cell(data[pos]) {
        pos
    } else if !repeat_mode {
        block_end(data, end, pos + 1, repeat_mode)
    } else if pos + 1 >= data.len() {
        pos
    } else {
        block_end(data, end, pos + 2, repeat_mode)
    }
}

/// The phase at source intensity `j` and destination intensity `i` of the matrix that the
/// 256 cells of `cells` fill: column after column, each column by four cells of four phases.
pub open spec fn matrix_phase(cells: Seq<u8>, j: int, i: int) -> Phase {
    cell_phase(cells[8 * i + j / 4], j % 4)
}

/// Whether `m` is the matrix that the 256 cells of `cells` fill.
pub open spec fn is_matrix_of(m: Seq<Phase>, cells: Seq<u8>) -> bool {
    &&& m.len() == 1024
    &&& forall|j: int, i: int|
        0 <= j < 32 && 0 <= i < 32 ==> #[trigger] m[cell_index(j, i)] == matrix_phase(cells, j, i)
}

/// The matrices that `cells` fill completely, one per 256 cells; cells left over are dropped.
pub open spec fn fills_matrices(ms: Seq<PhaseMatrix>, cells: Seq<u8>) -> bool {
    &&& ms.len() == cells.len() / 256
    &&& forall|k: int|
        0 <= k < ms.len() ==> is_matrix_of(#[trigger] ms[k]@, cells.subrange(256 * k, 256 * k + 256))
}

/// Decodes the waveform block from the reader's position up to `end` (exclusive) into the
/// matrices it fills.
pub fn waveform(end: u64, input: &mut ByteReader) -> (r: Result<Vec<PhaseMatrix>, Error>)
    requires
        old(input).wf(),
    ensures
        final(input).wf(),
        final(input).data() == old(input).data(),
        ({
            let cells = block_cells(old(input).data(), end as int, old(input).pos() as int, true);
            &&& r is Ok <==> cells is Ok
            &&& r matches Err(e) ==> cells == Err::<Seq<u8>, Error>(e)
            &&& r matches Ok(ms) ==> fills_matrices(ms@, cells->Ok_0)
            &&& r is Ok ==> final(input).pos() == block_end(
                old(input).data(),
                end as int,
                old(input).pos() as int,
                true,
            )
        }),
{
    let ghost data = input.data();
    let ghost start = input.pos() as int;
    let ghost total = block_cells(data, end as int, start, true);
    let ghost stop = block_end(data, end as int, start, true);
    let ghost mut produced: Seq<u8> = Seq::empty();
    let mut block: Vec<PhaseMatrix> = Vec::new();
    let mut matrix = PhaseMatrix::blank();
    let mut i: usize = 0;
    let mut j: usize = 0;
    let mut repeat_mode = true;
    assert(prepend(produced, total) == total) by {
        if let Ok(s) = total {
            assert(produced + s =~= s);
        }
    }
    loop
        invariant
            input.wf(),
            input.data() == data,
            data == old(input).data(),
            start == old(input).pos(),
            total == block_cells(data, end as int, start, true),
            total == prepend(produced, block_cells(data, end as int, input.pos() as int, repeat_mode)),
            stop == block_end(data, end as int, start, true),
            stop == block_end(data, end as int, input.pos() as int, repeat_mode),
            i < 32,
            j < 32,
            j % 4 == 0,
            produced.len() == 256 * block@.len() + 8 * i + j / 4,
            fills_matrices(block@, produced.subrange(0, 256 * block@.len() as int)),
            matrix@.len() == 1024,
            holds_groups(matrix@, produced, block@.len() as int, 8 * i + j / 4),
        decreases data.len() - input.pos(),
    {
        let pos = input.position();
        if pos >= end {
            proof {
                lemma_done(produced, block@, total, i as int, j as int);
            }
            return Ok(block);
        }
        let byte = match u8(input) {
            Ok(b) => b,
            Err(e) => return Err(Error::Read(e)),
        };
        if byte == 0xFC {
            repeat_mode = !repeat_mode;
            continue;
        }
        if byte == 0xFF {
            proof {
                lemma_done(produced, block@, total, i as int, j as int);
            }
            return Ok(block);
        }
        let cell = match PhaseCell::new(byte) {
            Ok(c) => c,
            Err(e) => return Err(e),
        };
        let repeat: u32 = if repeat_mode {
            match u8(input) {
                Ok(r) => r as u32 + 1,
                Err(e) => return Err(Error::Read(e)),
            }
        } else {
            1
        };
        let ghost rest = block_cells(data, end as int, input.pos() as int, repeat_mode);
        assert(total == prepend(produced + Seq::new(repeat as nat, |n: int| byte), rest)) by {
            if let Ok(s) = rest {
                if repeat_mode {
                    assert(produced + (Seq::new(repeat as nat, |n: int| byte) + s) =~= (produced
                        + Seq::new(repeat as nat, |n: int| byte)) + s);
                } else {
                    assert(Seq::new(repeat as nat, |n: int| byte) =~= seq![byte]);
                    assert(produced + (seq![byte] + s) =~= (produced + seq![byte]) + s);
                }
            }
        }
        proof {
            lemma_legal_cell_phases(byte);
        }
        let p0 = cell.index(0).unwrap();
        let p1 = cell.index(1).unwrap();
        let p2 = cell.index(2).unwrap();
        let p3 = cell.index(3).unwrap();
        let mut n: u32 = 0;
        while n < repeat
            invariant
                input.wf(),
                input.data() == data,
                data == old(input).data(),
                start == old(input).pos(),
                total == block_cells(data, end as int, start, true),
                rest == block_cells(data, end as int, input.pos() as int, repeat_mode),
                stop == block_end(data, end as int, start, true),
                stop == block_end(data, end as int, input.pos() as int, repeat_mode),
                n <= repeat,
                total == prepend(produced + Seq::new((repeat - n) as nat, |m: int| byte), rest),
                p0 == cell_phase(byte, 0),
                p1 == cell_phase(byte, 1),
                p2 == cell_phase(byte, 2),
                p3 == cell_phase(byte, 3),
                i < 32,
                j < 32,
                j % 4 == 0,
                produced.len() == 256 * block@.len() + 8 * i + j / 4,
                fills_matrices(block@, produced.subrange(0, 256 * block@.len() as int)),
                matrix@.len() == 1024,
                holds_groups(matrix@, produced, block@.len() as int, 8 * i + j / 4),
            decreases repeat - n,
        {
            let ghost before = matrix@;
            matrix.cells[32 * j + i] = p0;
            matrix.cells[32 * (j + 1) + i] = p1;
            matrix.cells[32 * (j + 2) + i] = p2;
            matrix.cells[32 * (j + 3) + i] = p3;
            proof {
                lemma_write_group(before, matrix@, produced, block@.len() as int, i as int, j as int, byte);
                let ghost next = produced.push(byte);
                assert(next + Seq::new((repeat - n - 1) as nat, |m: int| byte) =~= produced
                    + Seq::new((repeat - n) as nat, |m: int| byte));
                produced = next;
            }
            j += 4;
            if j == 32 {
                j = 0;
                i += 1;
            }
            if i == 32 {
                i = 0;
                proof {
                    lemma_matrix_complete(produced, block@, matrix);
                }
                block.push(matrix);
                matrix = PhaseMatrix::blank();
            }
            n += 1;
        }
        assert(produced + Seq::new(0, |m: int| byte) =~= produced);
    }
}

/// The partial matrix `m` holds the first `g` groups of four phases after `256 * nb` cells.
pub open spec fn holds_groups(m: Seq<Phase>, produced: Seq<u8>, nb: int, g: int) -> bool {
    forall|jj: int, ii: int|
        0 <= jj < 32 && 0 <= ii < 32 && 8 * ii + jj / 4 < g ==> #[trigger] m[cell_index(jj, ii)]
            == cell_phase(produced[256 * nb + 8 * ii + jj / 4], jj % 4)
}

/// Writing the four phases of one cell down column `i` from row `j` extends by one the groups
/// that the partial matrix holds.
proof fn lemma_write_group(
    before: Seq<Phase>,
    after: Seq<Phase>,
    produced: Seq<u8>,
    nb: int,
    i: int,
    j: int,
    byte: u8,
)
    requires
        before.len() == 1024,
        0 <= i < 32,
        0 <= j < 32,
        j % 4 == 0,
        after == before.update(cell_index(j, i), cell_phase(byte, 0)).update(
            cell_index(j + 1, i),
            cell_phase(byte, 1),
        ).update(cell_index(j + 2, i), cell_phase(byte, 2)).update(
            cell_index(j + 3, i),
            cell_phase(byte, 3),
        ),
        produced.len() == 256 * nb + 8 * i + j / 4,
        holds_groups(before, produced, nb, 8 * i + j / 4),
    ensures
        after.len() == 1024,
        holds_groups(after, produced.push(byte), nb, 8 * i + j / 4 + 1),
{
    let next = produced.push(byte);
    assert forall|jj: int, ii: int|
        0 <= jj < 32 && 0 <= ii < 32 && 8 * ii + jj / 4 < 8 * i + j / 4 + 1 implies #[trigger] after[cell_index(jj, ii)]
            == cell_phase(next[256 * nb + 8 * ii + jj / 4], jj % 4) by {
        if ii == i && j <= jj < j + 4 {
            assert(jj / 4 == j / 4);
            assert(next[256 * nb + 8 * ii + jj / 4] == byte);
        } else {
            assert(8 * ii + jj / 4 < 8 * i + j / 4);
            assert(before[cell_index(jj, ii)] == cell_phase(produced[256 * nb + 8 * ii + jj / 4], jj % 4));
        }
    }
}

/// When decoding stops, the cells produced are all the cells of the block, and the finished
/// matrices are the ones they fill.
proof fn lemma_done(produced: Seq<u8>, block: Seq<PhaseMatrix>, total: Result<Seq<u8>, Error>, i: int, j: int)
    requires
        total == prepend(produced, Ok(Seq::empty())),
        0 <= i < 32,
        0 <= j < 32,
        produced.len() == 256 * block.len() + 8 * i + j / 4,
        fills_matrices(block, produced.subrange(0, 256 * block.len() as int)),
    ensures
        total is Ok,
        fills_matrices(block, total->Ok_0),
{
    assert(produced + Seq::empty() =~= produced);
    assert(produced.len() / 256 == block.len());
    assert forall|k: int| 0 <= k < block.len() implies is_matrix_of(
        #[trigger] block[k]@,
        produced.subrange(256 * k, 256 * k + 256),
    ) by {
        assert(produced.subrange(0, 256 * block.len() as int).subrange(256 * k, 256 * k + 256)
            =~= produced.subrange(256 * k, 256 * k + 256));
    }
}

/// A partial matrix that holds all 256 groups is the matrix of the latest 256 cells.
proof fn lemma_matrix_complete(produced: Seq<u8>, block: Seq<PhaseMatrix>, matrix: PhaseMatrix)
    requires
        produced.len() == 256 * block.len() + 256,
        fills_matrices(block, produced.subrange(0, 256 * block.len() as int)),
        matrix@.len() == 1024,
        holds_groups(matrix@, produced, block.len() as int, 256),
    ensures
        fills_matrices(block.push(matrix), produced.subrange(0, 256 * (block.len() + 1) as int)),
{
    let nb = block.len() as int;
    let all = produced.subrange(0, 256 * (nb + 1));
    let before = produced.subrange(0, 256 * nb);
    assert forall|k: int| 0 <= k < nb + 1 implies is_matrix_of(
        #[trigger] block.push(matrix)[k]@,
        all.subrange(256 * k, 256 * k + 256),
    ) by {
        if k < nb {
            assert(all.subrange(256 * k, 256 * k + 256) =~= before.subrange(256 * k, 256 * k + 256));
        } else {
            let cells = all.subrange(256 * k, 256 * k + 256);
            assert forall|jj: int, ii: int| 0 <= jj < 32 && 0 <= ii < 32 implies #[trigger] matrix@[cell_index(jj, ii)]
                == matrix_phase(cells, jj, ii) by {
                assert(8 * ii + jj / 4 < 256);
            }
        }
    }
    assert(all.len() / 256 == nb + 1);
}

/// The address in row `r`, column `k` of the resolved block index is read from the row whose
/// pointer is stored at `base + 4 * r`: row pointers sit at a fixed stride of four bytes, however
/// far the rows before reach into the data.
pub proof fn lemma_block_table_entry(data: Seq<u8>, base: int, rows: nat, t: int, r: int, k: int)
    requires
        t >= 0,
        0 <= r < rows,
        0 <= k <= t,
    ensures
        block_table(data, base, rows, t).len() == rows * (t + 1),
        block_table(data, base, rows, t)[r * (t + 1) + k] == pointer_at(
            data,
            row_pointer(data, base, r)->Some_0 + 4 * k,
        )->Some_0,
    decreases rows,
{
    lemma_block_table_len(data, base, rows, t);
    let prev = (rows - 1) as nat;
    lemma_block_table_len(data, base, prev, t);
    if r < prev {
        assert(r * (t + 1) + k < prev * (t + 1)) by (nonlinear_arith)
            requires
                r < prev,
                0 <= k <= t,
        ;
        lemma_block_table_entry(data, base, prev, t, r, k);
    } else {
        assert(r * (t + 1) + k - prev * (t + 1) == k);
    }
}

/// The block index has `t + 1` addresses per row.
proof fn lemma_block_table_len(data: Seq<u8>, base: int, rows: nat, t: int)
    requires
        t >= 0,
    ensures
        block_table(data, base, rows, t).len() == rows * (t + 1),
    decreases rows,
{
    if rows > 0 {
        let prev = (rows - 1) as nat;
        lemma_block_table_len(data, base, prev, t);
        let row = row_addresses(data, row_pointer(data, base, prev as int)->Some_0 as int, t);
        assert(row.len() == t + 1);
        assert(block_table(data, base, rows, t) == block_table(data, base, prev, t) + row);
        assert(prev * (t + 1) + (t + 1) == rows * (t + 1)) by (nonlinear_arith)
            requires
                prev == rows - 1,
        ;
        assert((block_table(data, base, prev, t) + row).len() == prev * (t + 1) + (t + 1));
    } else {
        assert(rows * (t + 1) == 0) by (nonlinear_arith)
            requires
                rows == 0,
        ;
    }
}

/// The pointer record of address `a`: its three bytes, least significant first, then their
/// checksum.
pub open spec fn pointer_record(a: u32) -> Seq<u8> {
    let bytes = seq![(a % 256) as u8, ((a / 256) % 256) as u8, (a / 65536) as u8];
    bytes.push(checksum_of(bytes))
}

/// The checksum and the value of three bytes, written out.
proof fn lemma_sum3(s: Seq<u8>)
    requires
        s.len() == 3,
    ensures
        checksum_of(s) == ((s[0] as nat + s[1] as nat + s[2] as nat) % 256) as u8,
        le_value(s) == s[0] as nat + 256 * s[1] as nat + 65536 * s[2] as nat,
{
    reveal_with_fuel(crate::checksum::byte_sum, 4);
    reveal_with_fuel(le_value, 4);
    assert(s.drop_last().drop_last().drop_last() =~= Seq::<u8>::empty());
    assert(s.drop_first().drop_first().drop_first() =~= Seq::<u8>::empty());
}

/// Every 24-bit address, written as a pointer record, decodes back to itself.
pub proof fn lemma_pointer_round_trip(a: u32)
    requires
        a < 0x100_0000,
    ensures
        pointer_at(pointer_record(a), 0) == Some(a),
{
    let r = pointer_record(a);
    let bytes = seq![(a % 256) as u8, ((a / 256) % 256) as u8, (a / 65536) as u8];
    assert(r.subrange(0, 3) =~= bytes);
    lemma_sum3(bytes);
}

/// Changing any one byte of a valid pointer record makes it invalid.
pub proof fn lemma_pointer_byte_changed(data: Seq<u8>, p: int, k: int, v: u8)
    requires
        pointer_at(data, p) is Some,
        0 <= k < 4,
        v != data[p + k],
    ensures
        pointer_at(data.update(p + k, v), p) is None,
{
    let changed = data.update(p + k, v);
    let (a, b) = (data.subrange(p, p + 3), changed.subrange(p, p + 3));
    lemma_sum3(a);
    lemma_sum3(b);
    if k < 3 {
        assert(b =~= a.update(k, v));
        assert(changed[p + 3] == data[p + 3]);
    }
}

/// The matrices that a block decodes to are as many as its cells fill whole: a block of
/// exactly `256 * k` cells, `1024 * k` phases, gives `k` matrices and no partial one.
pub proof fn lemma_whole_matrices(ms: Seq<PhaseMatrix>, cells: Seq<u8>, k: nat)
    requires
        fills_matrices(ms, cells),
        cells.len() == 256 * k,
    ensures
        ms.len() == k,
{
}

/// A block with fewer cells than one matrix needs decodes to no matrix: a partial matrix is
/// dropped.
pub proof fn lemma_partial_matrix_dropped(ms: Seq<PhaseMatrix>, cells: Seq<u8>)
    requires
        fills_matrices(ms, cells),
        cells.len() < 256,
    ensures
        ms.len() == 0,
{
}

/// A `0xFF` byte before the end of the block ends it: no cell after it is decoded.
pub proof fn lemma_sentinel_ends_block(data: Seq<u8>, end: int, pos: int, repeat_mode: bool)
    requires
        0 <= pos < end,
        pos < data.len(),
        data[pos] == 0xFF,
    ensures
        block_cells(data, end, pos, repeat_mode) == Ok::<Seq<u8>, Error>(Seq::empty()),
{
}

/// Whether decoding from `pos` reaches position `q` at the start of a control byte, with no
/// error and no end of the block before it.
pub open spec fn reaches_control(data: Seq<u8>, end: int, pos: int, repeat_mode: bool, q: int) -> bool
    decreases data.len() - pos,
{
    if pos == q {
        true
    } else if pos < 0 || pos > q || pos >= end || pos >= data.len() {
        false
    } else if data[pos] == 0xFC {
        reaches_control(data, end, pos + 1, !repeat_mode, q)
    } else if data[pos] == 0xFF || !is_legal_cell(data[pos]) {
        false
    } else if !repeat_mode {
        reaches_control(data, end, pos + 1, repeat_mode, q)
    } else if pos + 1 >= data.len() {
        false
    } else {
        reaches_control(data, end, pos + 2, repeat_mode, q)
    }
}

/// Past the removed pair, decoding `a ++ [0xFC, 0xFC] ++ b` runs as decoding `a ++ b` two
/// bytes earlier.
proof fn lemma_shifted_tail(a: Seq<u8>, b: Seq<u8>, p: int, repeat_mode: bool)
    requires
        a.len() <= p,
    ensures
        ({
            let d = a + seq![0xFCu8, 0xFCu8] + b;
            let e = a + b;
            block_cells(d, d.len() as int, p + 2, repeat_mode) == block_cells(
                e,
                e.len() as int,
                p,
                repeat_mode,
            )
        }),
    decreases (a + b).len() - p,
{
    let d = a + seq![0xFCu8, 0xFCu8] + b;
    let e = a + b;
    if p < e.len() {
        assert(d[p + 2] == e[p]);
        if p + 1 < e.len() {
            assert(d[p + 3] == e[p + 1]);
        }
        lemma_shifted_tail(a, b, p + 1, !repeat_mode);
        lemma_shifted_tail(a, b, p + 1, repeat_mode);
        if p + 2 < e.len() {
            lemma_shifted_tail(a, b, p + 2, repeat_mode);
        }
    }
}

/// Before the removed pair, decoding both inputs reads the same bytes.
proof fn lemma_shared_head(a: Seq<u8>, b: Seq<u8>, p: int, repeat_mode: bool)
    requires
        0 <= p <= a.len(),
        reaches_control(
            a + seq![0xFCu8, 0xFCu8] + b,
            (a + seq![0xFCu8, 0xFCu8] + b).len() as int,
            p,
            repeat_mode,
            a.len() as int,
        ),
    ensures
        ({
            let d = a + seq![0xFCu8, 0xFCu8] + b;
            let e = a + b;
            block_cells(d, d.len() as int, p, repeat_mode) == block_cells(
                e,
                e.len() as int,
                p,
                repeat_mode,
            )
        }),
    decreases a.len() - p,
{
    let d = a + seq![0xFCu8, 0xFCu8] + b;
    let e = a + b;
    let n = a.len() as int;
    if p == n {
        assert(d[n] == 0xFC && d[n + 1] == 0xFC);
        lemma_toggle_run(d, d.len() as int, n, 2, repeat_mode);
        lemma_shifted_tail(a, b, n, repeat_mode);
    } else {
        assert(d[p] == e[p]);
        if p + 1 < n {
            assert(d[p + 1] == e[p + 1]);
        }
        if d[p] == 0xFC {
            lemma_shared_head(a, b, p + 1, !repeat_mode);
        } else if !repeat_mode {
            lemma_shared_head(a, b, p + 1, repeat_mode);
        } else if p + 2 <= n {
            lemma_shared_head(a, b, p + 2, repeat_mode);
        } else {
            assert(!reaches_control(d, d.len() as int, p + 2, repeat_mode, n));
        }
    }
}

/// Two consecutive toggle bytes `0xFC`, both read as control bytes, can be removed without
/// changing the decoded block: the same cells come out, or the same error.
pub proof fn lemma_toggle_pair_removed(a: Seq<u8>, b: Seq<u8>, repeat_mode: bool)
    requires
        reaches_control(
            a + seq![0xFCu8, 0xFCu8] + b,
            (a + seq![0xFCu8, 0xFCu8] + b).len() as int,
            0,
            repeat_mode,
            a.len() as int,
        ),
    ensures
        ({
            let d = a + seq![0xFCu8, 0xFCu8] + b;
            let e = a + b;
            block_cells(d, d.len() as int, 0, repeat_mode) == block_cells(
                e,
                e.len() as int,
                0,
                repeat_mode,
            )
        }),
{
    lemma_shared_head(a, b, 0, repeat_mode);
}

/// A run of `n` toggle bytes `0xFC` decodes as if the repeat mode were flipped `n` times: an
/// even run restores it, an odd run flips it.
pub proof fn lemma_toggle_run(data: Seq<u8>, end: int, pos: int, n: nat, repeat_mode: bool)
    requires
        0 <= pos,
        pos + n <= end,
        pos + n <= data.len(),
        forall|x: int| pos <= x < pos + n ==> data[x] == 0xFC,
    ensures
        block_cells(data, end, pos, repeat_mode) == block_cells(
            data,
            end,
            pos + n,
            if n % 2 == 0 {
                repeat_mode
            } else {
                !repeat_mode
            },
        ),
    decreases n,
{
    if n > 0 {
        assert(data[pos] == 0xFC);
        lemma_toggle_run(data, end, pos + 1, (n - 1) as nat, !repeat_mode);
    }
}

} // verus!
