//! The array file codec: a ten-byte prelude (magic, version 1.0, header
//! length), the header text, and the cells as little-endian 32-bit words.

use vstd::prelude::*;
use crate::artifact::{shape_holds, shape_product, ArtifactView, NpyData};
use crate::format::{header_body, header_body_bytes, header_text};
use crate::header::{float32_descr, parse_header, read_header, Header, HeaderFields};
use crate::scan::{has_at, range_equals, starts_with_at, NEWLINE, SPACE};

verus! {

/// Why a byte buffer is no array file of the kind this library reads.
#[derive(Clone, Copy, Debug, PartialEq, Eq, Structural)]
pub enum CodecError {
    /// The buffer ends before the prelude or the header does.
    Truncated,
    /// The buffer does not start with the magic bytes.
    BadMagic,
    /// The version is not 1.0.
    UnsupportedVersion,
    /// The header text is no dictionary of the expected form, or lacks a key.
    MalformedHeader,
    /// The element descriptor is not `<f4`.
    DtypeMismatch,
    /// The header declares column-major order.
    FortranOrder,
    /// The payload is not four bytes for each cell of the shape.
    LengthMismatch,
}

/// Bytes before the header text.
pub const PRELUDE_LEN: usize = 10;

/// The prelude and the header together are a multiple of this.
pub const ALIGNMENT: usize = 64;

/// The largest header length that the 16-bit length field can hold.
pub const MAX_HEADER_LEN: usize = 65535;

/// The magic bytes: 0x93 and `NUMPY`.
pub open spec fn magic() -> Seq<u8> {
    seq![147u8, 78, 85, 77, 80, 89]
}

/// The four bytes of a cell, least significant first.
pub open spec fn cell_bytes(x: u32) -> Seq<u8> {
    seq![
        (x % 256) as u8,
        (x / 256 % 256) as u8,
        (x / 65536 % 256) as u8,
        (x / 16777216) as u8,
    ]
}

/// The cell that four bytes hold, least significant first.
pub open spec fn cell_of(b0: u8, b1: u8, b2: u8, b3: u8) -> u32 {
    (b0 + 256 * b1 + 65536 * b2 + 16777216 * b3) as u32
}

/// The cells of an array as bytes.
pub open spec fn payload(data: Seq<u32>) -> Seq<u8> {
    Seq::new(4 * data.len(), |k: int| cell_bytes(data[k / 4])[k % 4])
}

/// The cells that a payload holds; bytes behind the last whole cell are not
/// looked at.
pub open spec fn cells(payload: Seq<u8>) -> Seq<u32> {
    Seq::new(
        payload.len() / 4,
        |i: int|
            cell_of(payload[4 * i], payload[4 * i + 1], payload[4 * i + 2], payload[4 * i + 3]),
    )
}

/// The number of spaces behind a dictionary of `body_len` bytes that makes
/// prelude, dictionary, spaces and line end a multiple of 64.
pub open spec fn padding(body_len: nat) -> nat {
    ((ALIGNMENT - (PRELUDE_LEN + body_len + 1) % (ALIGNMENT as int)) % (ALIGNMENT as int)) as nat
}

/// The header text that is written for a shape.
pub open spec fn written_header(shape: Seq<u64>) -> Seq<u8> {
    header_text(shape, padding(header_body(shape).len()))
}

/// The header of the shape fits the 16-bit length field.
pub open spec fn fits_header(shape: Seq<u64>) -> bool {
    written_header(shape).len() <= MAX_HEADER_LEN
}

/// The artifact has a file of version 1.0 that this machine can hold.
pub open spec fn encodable(a: ArtifactView) -> bool {
    fits_header(a.shape) && PRELUDE_LEN + written_header(a.shape).len() + 4 * a.data.len()
        <= usize::MAX
}

/// The ten bytes before a header of `n` bytes.
pub open spec fn prelude(n: nat) -> Seq<u8> {
    magic() + seq![1u8, 0u8, (n % 256) as u8, (n / 256) as u8]
}

/// The file with the given header text and payload.
pub open spec fn file_of(header: Seq<u8>, payload: Seq<u8>) -> Seq<u8> {
    prelude(header.len()) + (header + payload)
}

/// The file of an artifact.
pub open spec fn encoding(a: ArtifactView) -> Seq<u8> {
    file_of(written_header(a.shape), payload(a.data))
}

/// The header length that the prelude of `bytes` declares.
pub open spec fn declared_header_len(bytes: Seq<u8>) -> nat {
    bytes[8] as nat + 256 * (bytes[9] as nat)
}

/// What the fields of a header and a payload denote together.
pub open spec fn interpret(fields: Option<HeaderFields>, payload: Seq<u8>) -> Result<
    ArtifactView,
    CodecError,
> {
    match fields {
        None => Err(CodecError::MalformedHeader),
        Some(f) => match (f.descr, f.fortran_order, f.shape) {
            (Some(descr), Some(column_major), Some(shape)) => if descr != float32_descr() {
                Err(CodecError::DtypeMismatch)
            } else if column_major {
                Err(CodecError::FortranOrder)
            } else if payload.len() % 4 != 0 || shape_product(shape) != payload.len() / 4 {
                Err(CodecError::LengthMismatch)
            } else {
                Ok(ArtifactView { data: cells(payload), shape })
            },
            _ => Err(CodecError::MalformedHeader),
        },
    }
}

/// What a byte buffer denotes: the artifact, or the first reason why it is
/// no array file.
pub open spec fn decoding(bytes: Seq<u8>) -> Result<ArtifactView, CodecError> {
    if bytes.len() < PRELUDE_LEN {
        Err(CodecError::Truncated)
    } else if !has_at(bytes, 0, magic()) {
        Err(CodecError::BadMagic)
    } else if bytes[6] != 1 || bytes[7] != 0 {
        Err(CodecError::UnsupportedVersion)
    } else if bytes.len() < PRELUDE_LEN + declared_header_len(bytes) {
        Err(CodecError::Truncated)
    } else {
        let n = declared_header_len(bytes);
        interpret(
            parse_header(bytes.subrange(PRELUDE_LEN as int, PRELUDE_LEN + n)),
            bytes.skip(PRELUDE_LEN + n),
        )
    }
}

/// Four bytes hold the cell they were made from.
pub proof fn lemma_cell_round_trip(x: u32)
    ensures
        cell_bytes(x).len() == 4,
        cell_of(cell_bytes(x)[0], cell_bytes(x)[1], cell_bytes(x)[2], cell_bytes(x)[3]) == x,
{
}

/// The cells of an array read back from its bytes.
pub proof fn lemma_payload_round_trip(data: Seq<u32>)
    ensures
        payload(data).len() == 4 * data.len(),
        cells(payload(data)) == data,
{
    let p = payload(data);
    assert forall|i: int| 0 <= i < data.len() implies cells(p)[i] == data[i] by {
        lemma_cell_round_trip(data[i]);
        assert(p[4 * i] == cell_bytes(data[i])[0]);
        assert(p[4 * i + 1] == cell_bytes(data[i])[1]);
        assert(p[4 * i + 2] == cell_bytes(data[i])[2]);
        assert(p[4 * i + 3] == cell_bytes(data[i])[3]);
    }
    assert(cells(p) =~= data);
}

/// The written header makes prelude and header a multiple of 64 and is as
/// short as that allows.
pub proof fn lemma_written_header_len(shape: Seq<u64>)
    ensures
        written_header(shape).len() == header_body(shape).len() + padding(
            header_body(shape).len(),
        ) + 1,
        (PRELUDE_LEN + written_header(shape).len()) % (ALIGNMENT as int) == 0,
        padding(header_body(shape).len()) < ALIGNMENT,
        fits_header(shape) <==> header_body(shape).len() <= 65525,
{
}

/// The header of a shape of at most 2975 dimensions fits the length field,
/// whatever the extents are.
pub proof fn lemma_few_dimensions_fit(shape: Seq<u64>)
    requires
        shape.len() <= 2975,
    ensures
        fits_header(shape),
{
    crate::format::lemma_header_body_len(shape);
    lemma_written_header_len(shape);
}

/// The parts of a file stand where the decoder looks for them.
pub proof fn lemma_file_parts(header: Seq<u8>, payload: Seq<u8>)
    requires
        header.len() <= MAX_HEADER_LEN,
    ensures
        ({
            let file = file_of(header, payload);
            &&& file.len() == PRELUDE_LEN + header.len() + payload.len()
            &&& has_at(file, 0, magic())
            &&& file[6] == 1
            &&& file[7] == 0
            &&& declared_header_len(file) == header.len()
            &&& file.subrange(PRELUDE_LEN as int, PRELUDE_LEN + header.len()) == header
            &&& file.skip(PRELUDE_LEN + header.len()) == payload
        }),
{
    let file = file_of(header, payload);
    let pre = prelude(header.len());
    assert(pre.len() == 10);
    assert(file.subrange(0, 6) =~= magic());
    assert(file[6] == pre[6] && file[7] == pre[7]);
    assert(file[8] == pre[8] && file[9] == pre[9]);
    assert(file.subrange(PRELUDE_LEN as int, PRELUDE_LEN + header.len()) =~= header);
    assert(file.skip(PRELUDE_LEN + header.len()) =~= payload);
}

/// A file denotes what its header text and its payload denote together.
pub proof fn lemma_decoding_file(header: Seq<u8>, payload: Seq<u8>)
    requires
        header.len() <= MAX_HEADER_LEN,
    ensures
        decoding(file_of(header, payload)) == interpret(parse_header(header), payload),
{
    lemma_file_parts(header, payload);
}

/// Decoding the file of a well-formed artifact gives the artifact back.
pub proof fn lemma_decode_encode(a: ArtifactView)
    requires
        a.wf(),
        fits_header(a.shape),
    ensures
        decoding(encoding(a)) == Ok::<ArtifactView, CodecError>(a),
{
    lemma_decoding_file(written_header(a.shape), payload(a.data));
    crate::format::lemma_parse_header_text(a.shape, padding(header_body(a.shape).len()));
    lemma_payload_round_trip(a.data);
}

/// Two well-formed artifacts with the same file are the same artifact.
pub proof fn lemma_encoding_injective(a: ArtifactView, b: ArtifactView)
    requires
        a.wf(),
        b.wf(),
        fits_header(a.shape),
        fits_header(b.shape),
        encoding(a) == encoding(b),
    ensures
        a == b,
{
    lemma_decode_encode(a);
    lemma_decode_encode(b);
}

/// A file that ends early is rejected: as truncated where the prelude or the
/// header is cut, as a length mismatch where the payload is.
pub proof fn lemma_decode_prefix(a: ArtifactView, n: int)
    requires
        a.wf(),
        fits_header(a.shape),
        0 <= n < encoding(a).len(),
    ensures
        n < PRELUDE_LEN + written_header(a.shape).len() ==> decoding(encoding(a).take(n)) == Err::<
            ArtifactView,
            CodecError,
        >(CodecError::Truncated),
        n >= PRELUDE_LEN + written_header(a.shape).len() ==> decoding(encoding(a).take(n)) == Err::<
            ArtifactView,
            CodecError,
        >(CodecError::LengthMismatch),
{
    let text = written_header(a.shape);
    let m = text.len();
    let pre = prelude(m);
    let pay = payload(a.data);
    let e = encoding(a);
    let cut = e.take(n);
    assert(pre.len() == 10);
    lemma_payload_round_trip(a.data);
    if n >= PRELUDE_LEN {
        assert(cut.subrange(0, 6) =~= magic());
        assert(cut[6] == 1 && cut[7] == 0);
        assert(cut[8] == pre[8] && cut[9] == pre[9]);
        assert(declared_header_len(cut) == m);
        if n >= PRELUDE_LEN + m {
            assert(cut.subrange(PRELUDE_LEN as int, PRELUDE_LEN + m) =~= text);
            crate::format::lemma_parse_header_text(a.shape, padding(header_body(a.shape).len()));
            let rest = cut.skip(PRELUDE_LEN + m);
            assert(rest.len() == n - PRELUDE_LEN - m);
            assert(rest.len() < 4 * a.data.len());
        }
    }
}

/// A file whose header is in order and whose payload is not four bytes for
/// each cell of the declared shape is rejected as a length mismatch,
/// whatever the payload holds.
pub proof fn lemma_payload_must_fit(header: Seq<u8>, shape: Seq<u64>, payload: Seq<u8>)
    requires
        header.len() <= MAX_HEADER_LEN,
        parse_header(header) == Some(crate::format::fields_of(shape)),
        payload.len() != 4 * shape_product(shape),
    ensures
        decoding(file_of(header, payload)) == Err::<ArtifactView, CodecError>(
            CodecError::LengthMismatch,
        ),
{
    lemma_decoding_file(header, payload);
}

/// A buffer that decodes holds a well-formed artifact, and its payload is
/// four bytes for each cell: no more, no less.
pub proof fn lemma_decoding_is_exact(bytes: Seq<u8>)
    ensures
        decoding(bytes) matches Ok(a) ==> a.wf() && bytes.len() == PRELUDE_LEN
            + declared_header_len(bytes) + 4 * a.data.len(),
{
}

/// Writes the file of `artifact` around its dictionary `body`.
fn emit(artifact: &NpyData, body: Vec<u8>) -> (bytes: Vec<u8>)
    requires
        body@ == header_body(artifact@.shape),
        encodable(artifact@),
    ensures
        bytes@ == encoding(artifact@),
{
    proof {
        lemma_written_header_len(artifact@.shape);
    }
    let pad: usize = (ALIGNMENT - (PRELUDE_LEN + body.len() + 1) % ALIGNMENT) % ALIGNMENT;
    let header_len: usize = body.len() + pad + 1;
    let marker: [u8; 6] = [147, 78, 85, 77, 80, 89];
    let mut out: Vec<u8> = Vec::new();
    out.extend_from_slice(marker.as_slice());
    out.push(1);
    out.push(0);
    out.push((header_len % 256) as u8);
    out.push((header_len / 256) as u8);
    proof {
        assert(marker@ =~= magic());
        assert(out@ =~= prelude(header_len as nat));
    }
    out.extend_from_slice(body.as_slice());
    let mut k: usize = 0;
    while k < pad
        invariant
            k <= pad,
            out@ == prelude(header_len as nat) + (body@ + crate::format::spaces(k as nat)),
        decreases pad - k,
    {
        out.push(SPACE);
        proof {
            assert(out@ =~= prelude(header_len as nat) + (body@ + crate::format::spaces(
                (k + 1) as nat,
            )));
        }
        k += 1;
    }
    out.push(NEWLINE);
    let ghost text = written_header(artifact@.shape);
    proof {
        assert(out@ =~= prelude(header_len as nat) + text);
    }
    let mut i: usize = 0;
    while i < artifact.data.len()
        invariant
            i <= artifact.data.len(),
            out@ == prelude(header_len as nat) + (text + payload(artifact.data@.take(i as int))),
        decreases artifact.data.len() - i,
    {
        let x: u32 = artifact.data[i];
        let ghost before = out@;
        out.push((x % 256) as u8);
        out.push((x / 256 % 256) as u8);
        out.push((x / 65536 % 256) as u8);
        out.push((x / 16777216) as u8);
        proof {
            let shorter = payload(artifact.data@.take(i as int));
            let longer = payload(artifact.data@.take(i + 1));
            assert(longer =~= shorter + cell_bytes(x));
            assert(out@ =~= before + cell_bytes(x));
            assert(out@ =~= prelude(header_len as nat) + (text + longer));
        }
        i += 1;
    }
    proof {
        assert(artifact.data@.take(i as int) =~= artifact.data@);
    }
    out
}

/// The file of an artifact whose header fits the length field.
pub fn encode(artifact: &NpyData) -> (bytes: Vec<u8>)
    requires
        encodable(artifact@),
    ensures
        bytes@ == encoding(artifact@),
{
    emit(artifact, header_body_bytes(&artifact.shape))
}

/// The file of an artifact, or nothing where it has none: where the header
/// would not fit the 16-bit length field, or the file not the machine word.
pub fn try_encode(artifact: &NpyData) -> (r: Option<Vec<u8>>)
    ensures
        encodable(artifact@) ==> (r matches Some(bytes) && bytes@ == encoding(artifact@)),
        !encodable(artifact@) ==> r.is_none(),
{
    let body = header_body_bytes(&artifact.shape);
    proof {
        lemma_written_header_len(artifact@.shape);
    }
    if body.len() > 65525 {
        return None;
    }
    let pad: usize = (ALIGNMENT - (PRELUDE_LEN + body.len() + 1) % ALIGNMENT) % ALIGNMENT;
    let header_len: usize = body.len() + pad + 1;
    if artifact.data.len() > (usize::MAX - PRELUDE_LEN - header_len) / 4 {
        return None;
    }
    Some(emit(artifact, body))
}

/// Reads the cells of the payload, which starts at `start`.
fn read_cells(bytes: &[u8], start: usize, count: usize) -> (data: Vec<u32>)
    requires
        start <= bytes.len(),
        (bytes.len() - start) % 4 == 0,
        count == (bytes.len() - start) / 4,
    ensures
        data@ == cells(bytes@.skip(start as int)),
{
    let ghost pay = bytes@.skip(start as int);
    let mut data: Vec<u32> = Vec::new();
    let mut i: usize = 0;
    while i < count
        invariant
            i <= count,
            start <= bytes.len(),
            count == (bytes.len() - start) / 4,
            (bytes.len() - start) % 4 == 0,
            pay == bytes@.skip(start as int),
            data@ == cells(pay).take(i as int),
        decreases count - i,
    {
        let at: usize = start + 4 * i;
        let x: u32 = bytes[at] as u32 + 256 * (bytes[at + 1] as u32) + 65536 * (bytes[at
            + 2] as u32) + 16777216 * (bytes[at + 3] as u32);
        data.push(x);
        proof {
            assert(pay[4 * i] == bytes@[at as int]);
            assert(pay[4 * i + 1] == bytes@[at + 1]);
            assert(pay[4 * i + 2] == bytes@[at + 2]);
            assert(pay[4 * i + 3] == bytes@[at + 3]);
            assert(data@ =~= cells(pay).take(i + 1));
        }
        i += 1;
    }
    proof {
        assert(cells(pay).take(i as int) =~= cells(pay));
    }
    data
}

/// Reads an array file. The result is the artifact that the buffer denotes,
/// or the first reason why it denotes none; see [`decoding`].
pub fn decode(bytes: &[u8]) -> (r: Result<NpyData, CodecError>)
    ensures
        match decoding(bytes@) {
            Ok(a) => r matches Ok(artifact) && artifact@ == a,
            Err(e) => r matches Err(found) && found == e,
        },
{
    if bytes.len() < PRELUDE_LEN {
        return Err(CodecError::Truncated);
    }
    let marker: [u8; 6] = [147, 78, 85, 77, 80, 89];
    proof {
        assert(marker@ =~= magic());
    }
    if !starts_with_at(bytes, 0, marker.as_slice()) {
        return Err(CodecError::BadMagic);
    }
    if bytes[6] != 1 || bytes[7] != 0 {
        return Err(CodecError::UnsupportedVersion);
    }
    let header_len: usize = bytes[8] as usize + 256 * (bytes[9] as usize);
    if bytes.len() - PRELUDE_LEN < header_len {
        return Err(CodecError::Truncated);
    }
    let start: usize = PRELUDE_LEN + header_len;
    let header = match read_header(&bytes[PRELUDE_LEN..start]) {
        None => {
            return Err(CodecError::MalformedHeader);
        },
        Some(header) => header,
    };
    let ghost fields = header@;
    let Header { descr, fortran_order, shape } = header;
    let (descr, column_major, shape) = match (descr, fortran_order, shape) {
        (Some(descr), Some(column_major), Some(shape)) => (descr, column_major, shape),
        _ => {
            return Err(CodecError::MalformedHeader);
        },
    };
    let float32: [u8; 3] = [60, 102, 52];
    proof {
        assert(float32@ =~= float32_descr());
        assert(descr@.subrange(0, descr@.len() as int) =~= descr@);
    }
    if !range_equals(descr.as_slice(), 0, descr.len(), float32.as_slice()) {
        return Err(CodecError::DtypeMismatch);
    }
    if column_major {
        return Err(CodecError::FortranOrder);
    }
    let payload_len: usize = bytes.len() - start;
    if payload_len % 4 != 0 {
        return Err(CodecError::LengthMismatch);
    }
    let count: usize = payload_len / 4;
    if !shape_holds(&shape, count) {
        return Err(CodecError::LengthMismatch);
    }
    let data = read_cells(bytes, start, count);
    Ok(NpyData { data, shape })
}

} // verus!
