use vstd::prelude::*;

use crate::errors::ErrorKind;

verus! {

/// Width in bytes of the serialized `id` field.
pub const ID_SIZE: usize = 4;

/// Maximum (and serialized) width in bytes of the `username` field.
pub const USERNAME_SIZE: usize = 32;

/// Maximum (and serialized) width in bytes of the `email` field.
pub const EMAIL_SIZE: usize = 255;

/// Size in bytes of one serialized row: the three fixed field widths.
pub const ROW_SIZE: usize = ID_SIZE + USERNAME_SIZE + EMAIL_SIZE;

/// One fixed-schema record: a 32-bit signed id and two UTF-8 text fields,
/// held as their byte encodings.
pub struct Row {
    pub id: i32,
    pub username: Vec<u8>,
    pub email: Vec<u8>,
}

/// The mathematical model of a row: the id and the two fields' byte sequences.
pub struct RowV {
    pub id: i32,
    pub username: Seq<u8>,
    pub email: Seq<u8>,
}

impl View for Row {
    type V = RowV;

    open spec fn view(&self) -> RowV {
        RowV { id: self.id, username: self.username@, email: self.email@ }
    }
}

/// A row is valid exactly when both text fields fit their fixed widths,
/// measured in bytes.
pub open spec fn valid_row(v: RowV) -> bool {
    v.username.len() <= USERNAME_SIZE && v.email.len() <= EMAIL_SIZE
}

/// A byte sequence that does not end in a zero byte. Only such fields
/// survive a serialization round trip unchanged: trailing zero bytes are
/// indistinguishable from padding.
pub open spec fn no_trailing_zero(s: Seq<u8>) -> bool {
    s.len() == 0 || s[s.len() - 1] != 0
}

/// The four little-endian bytes of a 32-bit value.
pub open spec fn le_bytes_of_u32(x: u32) -> Seq<u8> {
    seq![
        (x & 0xff) as u8,
        ((x >> 8u32) & 0xff) as u8,
        ((x >> 16u32) & 0xff) as u8,
        ((x >> 24u32) & 0xff) as u8,
    ]
}

/// The 32-bit value read little-endian from four bytes.
pub open spec fn u32_of_le_bytes(b: Seq<u8>) -> u32
    recommends
        b.len() == 4,
{
    (b[0] as u32) | ((b[1] as u32) << 8u32) | ((b[2] as u32) << 16u32) | ((b[3] as u32)
        << 24u32)
}

/// `s` left-justified in a field of `w` bytes, the rest zero-filled.
pub open spec fn zero_pad(s: Seq<u8>, w: int) -> Seq<u8>
    recommends
        s.len() <= w,
{
    s + Seq::new((w - s.len()) as nat, |i: int| 0u8)
}

/// `s` with all trailing zero bytes removed.
pub open spec fn trim_zeros(s: Seq<u8>) -> Seq<u8>
    decreases s.len(),
{
    if s.len() > 0 && s[s.len() - 1] == 0 {
        trim_zeros(s.drop_last())
    } else {
        s
    }
}

/// The serialized form of a row: 4 bytes little-endian id, then each text
/// field left-justified and zero-padded to its fixed width.
pub open spec fn encode_row(v: RowV) -> Seq<u8> {
    le_bytes_of_u32(v.id as u32) + zero_pad(v.username, USERNAME_SIZE as int) + zero_pad(
        v.email,
        EMAIL_SIZE as int,
    )
}

/// The row read back from a serialized buffer: the little-endian id, and
/// each text field with its zero padding trimmed.
pub open spec fn decode_row(b: Seq<u8>) -> RowV
    recommends
        b.len() == ROW_SIZE,
{
    RowV {
        id: u32_of_le_bytes(b.subrange(0, ID_SIZE as int)) as i32,
        username: trim_zeros(b.subrange(ID_SIZE as int, (ID_SIZE + USERNAME_SIZE) as int)),
        email: trim_zeros(b.subrange((ID_SIZE + USERNAME_SIZE) as int, ROW_SIZE as int)),
    }
}

/// Trimming never lengthens a sequence.
proof fn lemma_trim_zeros_len(s: Seq<u8>)
    ensures
        trim_zeros(s).len() <= s.len(),
    decreases s.len(),
{
    if s.len() > 0 && s[s.len() - 1] == 0 {
        lemma_trim_zeros_len(s.drop_last());
    }
}

/// What a row looks like after one trip through the codec: the id is kept,
/// and each text field loses its trailing zero bytes, which padding makes
/// indistinguishable from free space.
pub open spec fn stored_row(v: RowV) -> RowV {
    RowV { id: v.id, username: trim_zeros(v.username), email: trim_zeros(v.email) }
}

/// Padding changes nothing that trimming can see.
proof fn lemma_trim_zero_pad(s: Seq<u8>, w: int)
    requires
        s.len() <= w,
    ensures
        trim_zeros(zero_pad(s, w)) == trim_zeros(s),
    decreases w - s.len(),
{
    if s.len() == w {
        assert(zero_pad(s, w) =~= s);
    } else {
        let p = zero_pad(s, w);
        assert(p[p.len() - 1] == 0);
        assert(p.drop_last() =~= zero_pad(s, w - 1));
        lemma_trim_zero_pad(s, w - 1);
    }
}

/// A sequence without a trailing zero byte is already trimmed.
proof fn lemma_trim_zeros_noop(s: Seq<u8>)
    requires
        no_trailing_zero(s),
    ensures
        trim_zeros(s) == s,
{
}

/// Reading four little-endian bytes back gives the value they encode.
proof fn lemma_le_bytes_roundtrip(x: u32)
    ensures
        u32_of_le_bytes(le_bytes_of_u32(x)) == x,
{
    assert(((x & 0xff) as u8 as u32) | (((x >> 8u32) & 0xff) as u8 as u32) << 8u32 | (((x
        >> 16u32) & 0xff) as u8 as u32) << 16u32 | (((x >> 24u32) & 0xff) as u8 as u32) << 24u32
        == x) by (bit_vector);
}

/// Decoding an encoded row gives the row back with each text field's
/// trailing zero bytes trimmed, for every valid row.
pub proof fn lemma_decode_encode(v: RowV)
    requires
        valid_row(v),
    ensures
        decode_row(encode_row(v)) == stored_row(v),
{
    let b = encode_row(v);
    assert(b.subrange(0, ID_SIZE as int) =~= le_bytes_of_u32(v.id as u32));
    assert(b.subrange(ID_SIZE as int, (ID_SIZE + USERNAME_SIZE) as int) =~= zero_pad(
        v.username,
        USERNAME_SIZE as int,
    ));
    assert(b.subrange((ID_SIZE + USERNAME_SIZE) as int, ROW_SIZE as int) =~= zero_pad(
        v.email,
        EMAIL_SIZE as int,
    ));
    lemma_le_bytes_roundtrip(v.id as u32);
    let x = v.id;
    assert(x as u32 as i32 == x) by (bit_vector);
    lemma_trim_zero_pad(v.username, USERNAME_SIZE as int);
    lemma_trim_zero_pad(v.email, EMAIL_SIZE as int);
}

/// Round trip: decoding an encoded row gives exactly the row back, for
/// every valid row whose text fields do not end in a zero byte. A field
/// with a trailing zero byte, such as a username of one zero byte, comes
/// back trimmed instead.
pub proof fn lemma_decode_encode_roundtrip(v: RowV)
    requires
        valid_row(v),
        no_trailing_zero(v.username),
        no_trailing_zero(v.email),
    ensures
        decode_row(encode_row(v)) == v,
{
    lemma_decode_encode(v);
    lemma_trim_zeros_noop(v.username);
    lemma_trim_zeros_noop(v.email);
}

/// Appends `field` zero-padded to `width` bytes.
fn push_padded(b: &mut Vec<u8>, field: &Vec<u8>, width: usize)
    requires
        field@.len() <= width,
    ensures
        final(b)@ == old(b)@ + zero_pad(field@, width as int),
{
    let ghost b0 = b@;
    let mut i: usize = 0;
    while i < field.len()
        invariant
            i <= field@.len() <= width,
            b@ == b0 + field@.subrange(0, i as int),
        decreases field@.len() - i,
    {
        b.push(field[i]);
        i += 1;
    }
    assert(b@ == b0 + field@);
    while i < width
        invariant
            field@.len() <= i <= width,
            b@ == b0 + field@ + Seq::new((i - field@.len()) as nat, |j: int| 0u8),
        decreases width - i,
    {
        b.push(0u8);
        assert(b@ =~= b0 + field@ + Seq::new((i + 1 - field@.len()) as nat, |j: int| 0u8));
        i += 1;
    }
    assert(b@ =~= b0 + zero_pad(field@, width as int));
}

/// Serializes a row into exactly `ROW_SIZE` bytes, or reports
/// `FieldTooLong` when a text field exceeds its fixed width.
pub fn encode(row: &Row) -> (r: Result<Vec<u8>, ErrorKind>)
    ensures
        match r {
            Ok(b) => valid_row(row@) && b@ == encode_row(row@) && b@.len() == ROW_SIZE,
            Err(e) => e == ErrorKind::FieldTooLong && !valid_row(row@),
        },
{
    if row.username.len() > USERNAME_SIZE || row.email.len() > EMAIL_SIZE {
        return Err(ErrorKind::FieldTooLong);
    }
    let idu: u32 = row.id as u32;
    let mut b: Vec<u8> = Vec::new();
    b.push((idu & 0xff) as u8);
    b.push(((idu >> 8u32) & 0xff) as u8);
    b.push(((idu >> 16u32) & 0xff) as u8);
    b.push(((idu >> 24u32) & 0xff) as u8);
    assert(b@ =~= le_bytes_of_u32(idu));
    push_padded(&mut b, &row.username, USERNAME_SIZE);
    push_padded(&mut b, &row.email, EMAIL_SIZE);
    assert(b@ =~= encode_row(row@));
    Ok(b)
}

/// Copies `b[start..end]` with its trailing zero bytes removed.
fn trimmed_copy(b: &Vec<u8>, start: usize, end: usize) -> (r: Vec<u8>)
    requires
        start <= end <= b@.len(),
    ensures
        r@ == trim_zeros(b@.subrange(start as int, end as int)),
{
    let mut e: usize = end;
    while e > start && b[e - 1] == 0
        invariant
            start <= e <= end <= b@.len(),
            trim_zeros(b@.subrange(start as int, end as int)) == trim_zeros(
                b@.subrange(start as int, e as int),
            ),
        decreases e,
    {
        assert(b@.subrange(start as int, e as int).drop_last() =~= b@.subrange(
            start as int,
            e - 1,
        ));
        e -= 1;
    }
    assert(trim_zeros(b@.subrange(start as int, e as int)) == b@.subrange(
        start as int,
        e as int,
    ));
    let mut r: Vec<u8> = Vec::new();
    let mut i: usize = start;
    while i < e
        invariant
            start <= i <= e <= b@.len(),
            r@ == b@.subrange(start as int, i as int),
        decreases e - i,
    {
        r.push(b[i]);
        assert(r@ =~= b@.subrange(start as int, i + 1));
        i += 1;
    }
    r
}

/// Deserializes a `ROW_SIZE`-byte buffer. Never fails: any buffer of the
/// fixed length decodes to a valid row.
pub fn decode(bytes: &Vec<u8>) -> (row: Row)
    requires
        bytes@.len() == ROW_SIZE,
    ensures
        row@ == decode_row(bytes@),
        valid_row(row@),
{
    let b0 = bytes[0] as u32;
    let b1 = bytes[1] as u32;
    let b2 = bytes[2] as u32;
    let b3 = bytes[3] as u32;
    let idu: u32 = b0 | (b1 << 8u32) | (b2 << 16u32) | (b3 << 24u32);
    assert(bytes@.subrange(0, ID_SIZE as int)[0] == bytes@[0]);
    assert(idu == u32_of_le_bytes(bytes@.subrange(0, ID_SIZE as int)));
    let username = trimmed_copy(bytes, ID_SIZE, ID_SIZE + USERNAME_SIZE);
    let email = trimmed_copy(bytes, ID_SIZE + USERNAME_SIZE, ROW_SIZE);
    proof {
        lemma_trim_zeros_len(bytes@.subrange(ID_SIZE as int, (ID_SIZE + USERNAME_SIZE) as int));
        lemma_trim_zeros_len(bytes@.subrange((ID_SIZE + USERNAME_SIZE) as int, ROW_SIZE as int));
    }
    Row { id: idu as i32, username, email }
}

/// Deserializes a buffer after checking its length, reporting
/// `StorageCorruption` for any buffer that is not exactly `ROW_SIZE` bytes.
pub fn decode_checked(bytes: &Vec<u8>) -> (r: Result<Row, ErrorKind>)
    ensures
        match r {
            Ok(row) => bytes@.len() == ROW_SIZE && row@ == decode_row(bytes@) && valid_row(row@),
            Err(e) => e == ErrorKind::StorageCorruption && bytes@.len() != ROW_SIZE,
        },
{
    if bytes.len() != ROW_SIZE {
        return Err(ErrorKind::StorageCorruption);
    }
    Ok(decode(bytes))
}

} // verus!
