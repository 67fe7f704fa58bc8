use byteorder::{ByteOrder, LittleEndian};
use flate2::{bufread::GzDecoder, write::GzEncoder, Compression};
use std::io::{Read, Write};
use vstd::bytes::{spec_u64_from_le_bytes, spec_u64_to_le_bytes};
use vstd::prelude::*;

verus! {

/// Grid dimensions `[nx, ny]`: the number of bins along x and along y.
pub type Shape = [u64; 2];

/// Number of bins in a grid of the given shape.
pub open spec fn num_bins(shape: Shape) -> int {
    shape[0] as int * shape[1] as int
}

/// Whether the bin position `(ix, iy)` lies inside a grid of the given shape.
pub open spec fn in_grid(ix: int, iy: int, shape: Shape) -> bool {
    0 <= ix < shape[0] && 0 <= iy < shape[1]
}

/// The 1D index of bin `(ix, iy)` in row-major order with x varying fastest.
pub open spec fn flat_index(ix: int, iy: int, shape: Shape) -> int {
    iy * shape[0] + ix
}

/// Get the 2D grid position from a 1D index in the array.
///
/// Return `None` if the input index lies outside of the system.
pub fn index2tuple(i: usize, shape: Shape) -> (r: Option<(usize, usize)>)
    ensures
        i < num_bins(shape) ==> shape[0] > 0 && r == Some(
            ((i as int % shape[0] as int) as usize, (i as int / shape[0] as int) as usize),
        ),
        i >= num_bins(shape) ==> r is None,
{
    let nx = shape[0];
    let ny = shape[1];
    assert((nx as int) * (ny as int) <= u64::MAX as int * u64::MAX as int) by (nonlinear_arith)
        requires
            0 <= nx <= u64::MAX,
            0 <= ny <= u64::MAX,
    ;
    if (i as u128) < (nx as u128) * (ny as u128) {
        assert(nx > 0) by (nonlinear_arith)
            requires
                (nx as int) * (ny as int) > 0,
                nx >= 0,
                ny >= 0,
        ;
        let ix = (i as u64) % nx;
        let iy = (i as u64) / nx;
        Some((ix as usize, iy as usize))
    } else {
        None
    }
}

/// Get the 1D array index from a 2D grid position.
///
/// Return `None` if the 2D position lies outside of the system.
pub fn tuple2index(ix: isize, iy: isize, shape: Shape) -> (r: Option<usize>)
    requires
        num_bins(shape) <= usize::MAX,
    ensures
        r == if in_grid(ix as int, iy as int, shape) {
            Some(flat_index(ix as int, iy as int, shape) as usize)
        } else {
            None::<usize>
        },
{
    let nx = shape[0];
    let ny = shape[1];
    if ix >= 0 && (ix as u64) < nx && iy >= 0 && (iy as u64) < ny {
        let x = ix as u64;
        let y = iy as u64;
        assert(y * nx + x < nx * ny) by (nonlinear_arith)
            requires
                0 <= x < nx,
                0 <= y < ny,
        ;
        Some((y * nx + x) as usize)
    } else {
        None
    }
}

/// A valid 1D index maps to a position inside the grid, and that position
/// maps back to the same index.
pub proof fn lemma_index_round_trip(i: int, shape: Shape)
    requires
        0 <= i < num_bins(shape),
    ensures
        shape[0] > 0,
        in_grid(i % shape[0] as int, i / shape[0] as int, shape),
        flat_index(i % shape[0] as int, i / shape[0] as int, shape) == i,
{
    let nx = shape[0] as int;
    let ny = shape[1] as int;
    assert(nx > 0) by (nonlinear_arith)
        requires
            nx * ny > 0,
            nx >= 0,
            ny >= 0,
    ;
    assert(i / nx < ny) by (nonlinear_arith)
        requires
            0 <= i < nx * ny,
            nx > 0,
    ;
    assert(i == (i / nx) * nx + i % nx) by (nonlinear_arith)
        requires
            nx > 0,
    ;
}

/// A position inside the grid maps to a valid 1D index, and that index maps
/// back to the same position.
pub proof fn lemma_position_round_trip(ix: int, iy: int, shape: Shape)
    requires
        in_grid(ix, iy, shape),
    ensures
        0 <= flat_index(ix, iy, shape) < num_bins(shape),
        flat_index(ix, iy, shape) % shape[0] as int == ix,
        flat_index(ix, iy, shape) / shape[0] as int == iy,
{
    let nx = shape[0] as int;
    let ny = shape[1] as int;
    assert(0 <= iy * nx + ix < nx * ny) by (nonlinear_arith)
        requires
            0 <= ix < nx,
            0 <= iy < ny,
    ;
    vstd::arithmetic::div_mod::lemma_fundamental_div_mod_converse(iy * nx + ix, nx, iy, ix);
}

/// A density map: a uniform 2D grid of scalar values with its geometry.
///
/// Every real number is held as the bit pattern of an IEEE-754 double
/// (`f64::to_bits`), which is what the binary record stores.
pub struct DensMap {
    /// Bin size along x, y and z (z is unused but kept in the record).
    pub bin_size: [u64; 3],
    /// Absolute coordinate of the corner of bin (0, 0) along x and y.
    pub origin: [u64; 2],
    /// Number of bins along x and y.
    pub shape: Shape,
    /// Center of the fitted droplet along x and y.
    pub center: [u64; 2],
    /// Bin values in row-major order with x varying fastest.
    pub data: Vec<u64>,
}

impl DensMap {
    /// The data holds exactly one value per bin.
    pub open spec fn wf(&self) -> bool {
        self.data.len() == num_bins(self.shape)
    }
}

/// Why a density map record could not be read or written.
#[derive(Debug, PartialEq, Eq, Structural)]
pub enum GridError {
    /// The bytes end before the record does.
    Truncated,
    /// The gzip stream could not be decoded or encoded.
    Compression,
}

/// Number of 8-byte words in a record before the data values:
/// bin size (3), origin (2), shape (2), center (2) and time (1).
pub const HEADER_WORDS: usize = 10;

/// The header words of the record of `d` with the time `time`.
pub open spec fn header_words(d: DensMap, time: u64) -> Seq<u64> {
    seq![
        d.bin_size[0], d.bin_size[1], d.bin_size[2],
        d.origin[0], d.origin[1],
        d.shape[0], d.shape[1],
        d.center[0], d.center[1],
        time,
    ]
}

/// All words of the record of `d` with the time `time`, in the order written.
pub open spec fn record_words(d: DensMap, time: u64) -> Seq<u64> {
    header_words(d, time) + d.data@
}

/// The little-endian bytes of a sequence of words.
pub open spec fn le_words(ws: Seq<u64>) -> Seq<u8>
    decreases ws.len(),
{
    if ws.len() == 0 {
        seq![]
    } else {
        le_words(ws.drop_last()) + spec_u64_to_le_bytes(ws.last())
    }
}

/// The bytes of the record of `d` with the time `time`.
pub open spec fn record_bytes(d: DensMap, time: u64) -> Seq<u8> {
    le_words(record_words(d, time))
}

/// The `k`-th little-endian word of `b`.
pub open spec fn word_at(b: Seq<u8>, k: int) -> u64 {
    spec_u64_from_le_bytes(b.subrange(8 * k, 8 * k + 8))
}

/// Number of data values that the header at the start of `b` declares.
pub open spec fn declared_bins(b: Seq<u8>) -> int {
    word_at(b, 5) as int * word_at(b, 6) as int
}

/// Whether `b` holds a whole header and all the data values it declares.
pub open spec fn record_complete(b: Seq<u8>) -> bool {
    &&& b.len() >= 8 * HEADER_WORDS
    &&& b.len() >= 8 * (HEADER_WORDS + declared_bins(b))
}

/// Whether the record at the start of `b` holds the map `d` and the time `time`.
pub open spec fn decodes_to(b: Seq<u8>, d: DensMap, time: u64) -> bool {
    &&& record_complete(b)
    &&& d.wf()
    &&& record_words(d, time) =~= Seq::new(
        (HEADER_WORDS + declared_bins(b)) as nat,
        |k: int| word_at(b, k),
    )
}

/// Relies on byteorder's `LittleEndian::read_u64`: the word whose
/// little-endian bytes are `b[pos..pos + 8]`.
#[verifier::external_body]
fn le_u64_at(b: &[u8], pos: usize) -> (r: u64)
    requires
        pos + 8 <= b@.len(),
    ensures
        r == spec_u64_from_le_bytes(b@.subrange(pos as int, pos + 8)),
{
    LittleEndian::read_u64(&b[pos..pos + 8])
}

/// Relies on byteorder's `LittleEndian::write_u64`: the little-endian
/// bytes of `n`.
#[verifier::external_body]
fn le_bytes_of(n: u64) -> (r: [u8; 8])
    ensures
        r@ == spec_u64_to_le_bytes(n),
{
    let mut buf = [0u8; 8];
    LittleEndian::write_u64(&mut buf, n);
    buf
}

/// Append the little-endian bytes of `n`.
fn push_le_u64(out: &mut Vec<u8>, n: u64)
    ensures
        final(out)@ == old(out)@ + spec_u64_to_le_bytes(n),
{
    let bytes = le_bytes_of(n);
    let ghost start = out@;
    let mut i: usize = 0;
    while i < 8
        invariant
            i <= 8,
            bytes@ == spec_u64_to_le_bytes(n),
            out@ == start + bytes@.subrange(0, i as int),
        decreases 8 - i,
    {
        out.push(bytes[i]);
        proof {
            assert(bytes@.subrange(0, i + 1) =~= bytes@.subrange(0, i as int).push(bytes@[i as int]));
        }
        i += 1;
    }
    proof {
        vstd::bytes::lemma_auto_spec_u64_to_from_le_bytes();
        assert(bytes@.subrange(0, 8) =~= bytes@);
    }
}

#[verifier::external_type_specification]
#[verifier::external_body]
pub struct ExIoError(std::io::Error);

/// What flate2's gzip encoder at the fast level, with the default header,
/// produces from the given bytes.
pub uninterp spec fn gzip_fast_of(b: Seq<u8>) -> Seq<u8>;

/// What flate2's gzip decoder yields from the given bytes when it succeeds.
pub uninterp spec fn gunzip_of(b: Seq<u8>) -> Seq<u8>;

/// Relies on flate2's `write::GzEncoder` with `Compression::fast()` and the
/// default header (no time stamp): the compressed stream depends on the
/// input bytes alone.
#[verifier::external_body]
fn gzip_fast(b: &[u8]) -> (r: Result<Vec<u8>, std::io::Error>)
    ensures
        r matches Ok(v) ==> v@ == gzip_fast_of(b@),
{
    let mut encoder = GzEncoder::new(Vec::new(), Compression::fast());
    encoder.write_all(b)?;
    encoder.finish()
}

/// Relies on flate2's `bufread::GzDecoder`, read to its end: the
/// decompressed bytes depend on the input bytes alone.
#[verifier::external_body]
fn gunzip(b: &[u8]) -> (r: Result<Vec<u8>, std::io::Error>)
    ensures
        r matches Ok(v) ==> v@ == gunzip_of(b@),
{
    let mut out = Vec::new();
    GzDecoder::new(b).read_to_end(&mut out)?;
    Ok(out)
}

proof fn lemma_le_words_len(ws: Seq<u64>)
    ensures
        le_words(ws).len() == 8 * ws.len(),
    decreases ws.len(),
{
    vstd::bytes::lemma_auto_spec_u64_to_from_le_bytes();
    if ws.len() > 0 {
        lemma_le_words_len(ws.drop_last());
    }
}

proof fn lemma_le_words_push(ws: Seq<u64>, x: u64)
    ensures
        le_words(ws.push(x)) == le_words(ws) + spec_u64_to_le_bytes(x),
{
    assert(ws.push(x).drop_last() =~= ws);
}

proof fn lemma_le_words_append(a: Seq<u64>, b: Seq<u64>)
    ensures
        le_words(a + b) == le_words(a) + le_words(b),
    decreases b.len(),
{
    if b.len() == 0 {
        assert(a + b =~= a);
        assert(le_words(a) + le_words(b) =~= le_words(a));
    } else {
        lemma_le_words_append(a, b.drop_last());
        assert((a + b).drop_last() =~= a + b.drop_last());
        assert(le_words(a) + le_words(b) =~= le_words(a) + le_words(b.drop_last())
            + spec_u64_to_le_bytes(b.last()));
    }
}

proof fn lemma_word_at_le_words(ws: Seq<u64>, k: int)
    requires
        0 <= k < ws.len(),
    ensures
        word_at(le_words(ws), k) == ws[k],
    decreases ws.len(),
{
    vstd::bytes::lemma_auto_spec_u64_to_from_le_bytes();
    let prev = ws.drop_last();
    lemma_le_words_len(prev);
    let b = le_words(ws);
    if k == ws.len() - 1 {
        assert(b.subrange(8 * k, 8 * k + 8) =~= spec_u64_to_le_bytes(ws.last()));
    } else {
        lemma_le_words_len(ws);
        lemma_word_at_le_words(prev, k);
        assert(b.subrange(8 * k, 8 * k + 8) =~= le_words(prev).subrange(8 * k, 8 * k + 8));
    }
}

fn push_words(out: &mut Vec<u8>, ws: &Vec<u64>)
    ensures
        final(out)@ == old(out)@ + le_words(ws@),
{
    let ghost start = out@;
    let mut i: usize = 0;
    while i < ws.len()
        invariant
            i <= ws.len(),
            out@ == start + le_words(ws@.subrange(0, i as int)),
        decreases ws.len() - i,
    {
        proof {
            lemma_le_words_push(ws@.subrange(0, i as int), ws[i as int]);
            assert(ws@.subrange(0, i as int).push(ws[i as int]) =~= ws@.subrange(0, i + 1));
        }
        push_le_u64(out, ws[i]);
        i += 1;
    }
    assert(ws@.subrange(0, i as int) =~= ws@);
}

/// Encode a density map and its time as a record: bin size, origin, shape,
/// center, time, then the data, each as a little-endian 8-byte word.
pub fn write_densmap_to_bytes(densmap: &DensMap, time: u64) -> (r: Vec<u8>)
    ensures
        r@ == record_bytes(*densmap, time),
{
    let header: Vec<u64> = vec![
        densmap.bin_size[0], densmap.bin_size[1], densmap.bin_size[2],
        densmap.origin[0], densmap.origin[1],
        densmap.shape[0], densmap.shape[1],
        densmap.center[0], densmap.center[1],
        time,
    ];
    assert(header@ =~= header_words(*densmap, time));
    let mut out: Vec<u8> = Vec::new();
    push_words(&mut out, &header);
    push_words(&mut out, &densmap.data);
    proof {
        lemma_le_words_append(header@, densmap.data@);
        assert(out@ =~= record_bytes(*densmap, time));
    }
    out
}

/// Decode the record at the start of `bytes`; bytes after it are ignored.
///
/// The number of data values is the one that the header declares.
pub fn read_densmap_from_bytes(bytes: &[u8]) -> (r: Result<(DensMap, u64), GridError>)
    ensures
        r is Ok <==> record_complete(bytes@),
        r matches Ok((d, t)) ==> decodes_to(bytes@, d, t),
        r is Err ==> r == Err::<(DensMap, u64), GridError>(GridError::Truncated),
{
    if bytes.len() < 8 * HEADER_WORDS {
        return Err(GridError::Truncated);
    }
    let mut words: Vec<u64> = Vec::new();
    let mut k: usize = 0;
    while k < HEADER_WORDS
        invariant
            k <= HEADER_WORDS,
            bytes@.len() >= 8 * HEADER_WORDS,
            words@ =~= Seq::new(k as nat, |m: int| word_at(bytes@, m)),
        decreases HEADER_WORDS - k,
    {
        words.push(le_u64_at(bytes, 8 * k));
        k += 1;
    }
    let nx = words[5];
    let ny = words[6];
    let len = bytes.len();
    let available = (len - 8 * HEADER_WORDS) / 8;
    assert((nx as int) * (ny as int) <= u64::MAX as int * u64::MAX as int) by (nonlinear_arith)
        requires
            0 <= nx <= u64::MAX,
            0 <= ny <= u64::MAX,
    ;
    if (nx as u128) * (ny as u128) > available as u128 {
        return Err(GridError::Truncated);
    }
    let n = (nx as u128 * ny as u128) as usize;
    assert(8 * HEADER_WORDS + 8 * n <= len) by (nonlinear_arith)
        requires
            n <= available,
            available == (len - 80) / 8,
            len >= 80,
            HEADER_WORDS == 10,
    ;
    let mut data: Vec<u64> = Vec::new();
    let mut j: usize = 0;
    while j < n
        invariant
            j <= n,
            8 * HEADER_WORDS + 8 * n <= len,
            bytes@.len() == len,
            data@ =~= Seq::new(j as nat, |m: int| word_at(bytes@, HEADER_WORDS + m)),
        decreases n - j,
    {
        data.push(le_u64_at(bytes, 8 * (HEADER_WORDS + j)));
        j += 1;
    }
    let d = DensMap {
        bin_size: [words[0], words[1], words[2]],
        origin: [words[3], words[4]],
        shape: [nx, ny],
        center: [words[7], words[8]],
        data,
    };
    Ok((d, words[9]))
}

/// Encode a density map and its time as a record, compressed with gzip at
/// the fast level when `compressed` holds.
pub fn write_densmap_to_file_bytes(densmap: &DensMap, time: u64, compressed: bool) -> (r: Result<
    Vec<u8>,
    GridError,
>)
    ensures
        !compressed ==> (r matches Ok(v) && v@ == record_bytes(*densmap, time)),
        compressed ==> match r {
            Ok(v) => v@ == gzip_fast_of(record_bytes(*densmap, time)),
            Err(e) => e == GridError::Compression,
        },
{
    let raw = write_densmap_to_bytes(densmap, time);
    if compressed {
        match gzip_fast(raw.as_slice()) {
            Ok(v) => Ok(v),
            Err(_) => Err(GridError::Compression),
        }
    } else {
        Ok(raw)
    }
}

/// Decode the record in the bytes of a file, which are first decompressed
/// with gzip when `compressed` holds.
pub fn read_densmap_from_file_bytes(bytes: &[u8], compressed: bool) -> (r: Result<
    (DensMap, u64),
    GridError,
>)
    ensures
        !compressed ==> (r is Ok <==> record_complete(bytes@)),
        !compressed ==> (r matches Ok((d, t)) ==> decodes_to(bytes@, d, t)),
        !compressed ==> (r is Err ==> r == Err::<(DensMap, u64), GridError>(
            GridError::Truncated,
        )),
        compressed ==> match r {
            Ok((d, t)) => decodes_to(gunzip_of(bytes@), d, t),
            Err(e) => e == GridError::Compression || (e == GridError::Truncated
                && !record_complete(gunzip_of(bytes@))),
        },
{
    if compressed {
        match gunzip(bytes) {
            Ok(raw) => read_densmap_from_bytes(raw.as_slice()),
            Err(_) => Err(GridError::Compression),
        }
    } else {
        read_densmap_from_bytes(bytes)
    }
}

/// Writing a density map with its time and reading the bytes back succeeds
/// and gives the same bin size, origin, shape, center, time and data, bit
/// for bit.
pub proof fn lemma_write_read_round_trip(d: DensMap, time: u64)
    requires
        d.wf(),
    ensures
        record_complete(record_bytes(d, time)),
        forall|d2: DensMap, t2: u64|
            decodes_to(record_bytes(d, time), d2, t2) ==> record_words(d2, t2) == record_words(
                d,
                time,
            ),
{
    let ws = record_words(d, time);
    let b = record_bytes(d, time);
    lemma_le_words_len(ws);
    assert(ws.len() == HEADER_WORDS + num_bins(d.shape));
    lemma_word_at_le_words(ws, 5);
    lemma_word_at_le_words(ws, 6);
    assert(declared_bins(b) == num_bins(d.shape));
    assert forall|d2: DensMap, t2: u64| decodes_to(b, d2, t2) implies record_words(d2, t2)
        == ws by {
        assert forall|k: int| 0 <= k < ws.len() implies record_words(d2, t2)[k] == ws[k] by {
            lemma_word_at_le_words(ws, k);
        }
        assert(record_words(d2, t2) =~= ws);
    }
}

} // verus!
