//! Variable records and the file container that wraps them, as bytes.
use vstd::prelude::*;

verus! {

/// Size in bytes of a record's header, before the payload.
pub const ENTRY_HEADER_LEN: usize = 17;

/// Size in bytes of the container's envelope before the record.
pub const FILE_HEADER_LEN: usize = 56;

/// The container signature.
pub open spec fn file_magic() -> Seq<u8> {
    seq![0x2au8, 0x2a, 0x54, 0x49, 0x38, 0x33, 0x46, 0x2a, 0x1a, 0x0a, 0x00]
}

/// The comment written into every container.
pub open spec fn file_comment() -> Seq<u8> {
    seq![
        0x47u8, 0x65, 0x6e, 0x65, 0x72, 0x61, 0x74, 0x65, 0x64, 0x20, 0x66, 0x6f, 0x72, 0x20,
        0x42, 0x41, 0x53, 0x49, 0x43, 0x6c, 0x69, 0x6e, 0x67, 0x73, 0x20, 0x61, 0x75, 0x74,
        0x6f, 0x6d, 0x61, 0x74, 0x65, 0x64, 0x20, 0x74, 0x65, 0x73, 0x74, 0x69, 0x6e, 0x67,
    ]
}

/// Little-endian bytes of a 16-bit value.
pub open spec fn u16_le(x: u16) -> Seq<u8> {
    seq![(x % 256) as u8, (x / 256) as u8]
}

/// The little-endian 16-bit value at position `i` of `s`.
pub open spec fn u16_at(s: Seq<u8>, i: int) -> u16 {
    (s[i] + 256 * s[i + 1]) as u16
}

/// Sum of the bytes of `s`, each widened, without wrap-around.
pub open spec fn byte_sum(s: Seq<u8>) -> nat
    decreases s.len(),
{
    if s.len() == 0 {
        0
    } else {
        byte_sum(s.drop_last()) + s.last() as nat
    }
}

/// Sum of the bytes of `s` in 16-bit wrapping arithmetic.
pub open spec fn wrapping_sum_u16(s: Seq<u8>) -> u16 {
    (byte_sum(s) % 65536) as u16
}

/// Whether `x` is one of the two accepted flash indicators.
pub open spec fn flash_ok(x: u16) -> bool {
    x == 0x0b || x == 0x0d
}

/// A variable or program record: header and payload.
#[derive(Debug)]
pub struct TIEntry {
    pub flash_indicator: u16,
    pub var_data_length: u16,
    pub file_type: u8,
    pub name: [u8; 8],
    pub version: u8,
    pub flags: u8,
    pub var_data_length_2: u16,
    pub data: Vec<u8>,
}

impl PartialEq for TIEntry {
    /// Two records are equal when their names and payloads are; the rest of
    /// the header is not compared.
    fn eq(&self, other: &TIEntry) -> (r: bool)
        ensures
            r == (self.name@ == other.name@ && self.data@ == other.data@),
    {
        let mut i: usize = 0;
        while i < 8
            invariant
                i <= 8,
                forall|j: int| 0 <= j < i ==> self.name@[j] == other.name@[j],
            decreases 8 - i,
        {
            if self.name[i] != other.name[i] {
                return false;
            }
            i += 1;
        }
        assert(self.name@ =~= other.name@);
        if self.data.len() != other.data.len() {
            return false;
        }
        let mut k: usize = 0;
        while k < self.data.len()
            invariant
                self.data@.len() == other.data@.len(),
                k <= self.data@.len(),
                forall|j: int| 0 <= j < k ==> self.data@[j] == other.data@[j],
            decreases self.data@.len() - k,
        {
            if self.data[k] != other.data[k] {
                return false;
            }
            k += 1;
        }
        assert(self.data@ =~= other.data@);
        true
    }
}

impl vstd::std_specs::cmp::PartialEqSpecImpl for TIEntry {
    open spec fn obeys_eq_spec() -> bool {
        true
    }

    open spec fn eq_spec(&self, other: &TIEntry) -> bool {
        self.name@ == other.name@ && self.data@ == other.data@
    }
}

/// Why bytes could not be turned into a record or container, or a value
/// into a record.
#[derive(Debug, Clone, Copy, PartialEq, Eq, Structural)]
pub enum FormatError {
    /// The container does not start with the signature.
    BadMagic,
    /// The flash indicator is neither 0x0b nor 0x0d.
    BadFlashIndicator,
    /// Fewer bytes than the layout asks for.
    Truncated,
    /// The payload does not fit the 16-bit length fields.
    TooLarge,
    /// A real number the calculator cannot represent.
    BadNumber,
    /// Text the calculator's tokens cannot express.
    Untokenizable,
}

/// The bytes of a record.
pub open spec fn entry_bytes(e: TIEntry) -> Seq<u8> {
    u16_le(e.flash_indicator) + u16_le(e.var_data_length) + seq![e.file_type] + e.name@
        + seq![e.version, e.flags] + u16_le(e.var_data_length_2) + e.data@
}

/// Whether `s` starts with a whole record.
pub open spec fn entry_parses(s: Seq<u8>) -> bool {
    &&& s.len() >= 17
    &&& flash_ok(u16_at(s, 0))
    &&& s.len() >= 17 + u16_at(s, 15)
}

/// Length of the record at the start of `s`.
pub open spec fn entry_len_at(s: Seq<u8>) -> nat {
    (17 + u16_at(s, 15)) as nat
}

/// The payload of the record at the start of `s`.
pub open spec fn payload_at(s: Seq<u8>) -> Seq<u8> {
    s.subrange(17, 17 + u16_at(s, 15))
}

impl TIEntry {
    /// Header lengths agree with the payload, the flash indicator is valid,
    /// and the whole record's length fits in 16 bits.
    pub open spec fn wf(&self) -> bool {
        &&& flash_ok(self.flash_indicator)
        &&& self.var_data_length as nat == self.data@.len()
        &&& self.var_data_length_2 as nat == self.data@.len()
        &&& self.data@.len() + 17 <= 0xffff
    }

    /// A record of the given name, type and payload, with the default header
    /// values; fails when the payload is too long for the length fields.
    pub fn new(name: [u8; 8], file_type: u8, data: Vec<u8>) -> (r: Result<TIEntry, FormatError>)
        ensures
            data@.len() + 17 <= 0xffff ==> (r matches Ok(e) && e.wf() && e.name == name
                && e.file_type == file_type && e.data@ == data@ && e.flash_indicator == 0x0d
                && e.version == 0 && e.flags == 0),
            data@.len() + 17 > 0xffff ==> r == Err::<TIEntry, FormatError>(FormatError::TooLarge),
    {
        if data.len() > 0xffff - ENTRY_HEADER_LEN {
            return Err(FormatError::TooLarge);
        }
        let len = data.len() as u16;
        Ok(TIEntry {
            flash_indicator: 0x0d,
            var_data_length: len,
            file_type,
            name,
            version: 0,
            flags: 0,
            var_data_length_2: len,
            data,
        })
    }

    /// The record's bytes.
    pub fn to_bytes(&self) -> (r: Vec<u8>)
        ensures
            r@ == entry_bytes(*self),
    {
        let mut out: Vec<u8> = Vec::new();
        push_u16(&mut out, self.flash_indicator);
        push_u16(&mut out, self.var_data_length);
        out.push(self.file_type);
        let mut i: usize = 0;
        while i < 8
            invariant
                i <= 8,
                out@ == u16_le(self.flash_indicator) + u16_le(self.var_data_length) + seq![
                    self.file_type,
                ] + self.name@.subrange(0, i as int),
            decreases 8 - i,
        {
            out.push(self.name[i]);
            assert(self.name@.subrange(0, i + 1) == self.name@.subrange(0, i as int).push(
                self.name@[i as int],
            ));
            i += 1;
        }
        assert(self.name@.subrange(0, 8) == self.name@);
        out.push(self.version);
        out.push(self.flags);
        push_u16(&mut out, self.var_data_length_2);
        append_bytes(&mut out, &self.data);
        assert(out@ == entry_bytes(*self));
        out
    }

    /// Number of bytes of the record, as a 16-bit value.
    pub fn size(&self) -> (r: u16)
        requires
            self.wf(),
        ensures
            r as nat == entry_bytes(*self).len(),
    {
        (self.data.len() + ENTRY_HEADER_LEN) as u16
    }

    /// Wrapping 16-bit sum of the record's bytes.
    pub fn checksum(&self) -> (r: u16)
        ensures
            r == wrapping_sum_u16(entry_bytes(*self)),
    {
        let bytes = self.to_bytes();
        checksum_of(&bytes)
    }

    /// Reads a record from the start of `s`, returning it with the number of
    /// bytes it took.
    pub fn from_bytes(s: &[u8]) -> (r: Result<(TIEntry, usize), FormatError>)
        ensures
            r is Ok <==> entry_parses(s@),
            r is Err ==> r == Err::<(TIEntry, usize), FormatError>(entry_error(s@)),
            r matches Ok((e, n)) ==> (n == entry_len_at(s@) && entry_bytes(e) == s@.subrange(
                0,
                n as int,
            ) && e.data@ == payload_at(s@)),
    {
        assert(s@.subrange(0, s@.len() as int) =~= s@);
        read_entry(s, 0)
    }
}

/// The error for bytes that do not start with a whole record.
pub open spec fn entry_error(s: Seq<u8>) -> FormatError {
    if s.len() < 17 {
        FormatError::Truncated
    } else if !flash_ok(u16_at(s, 0)) {
        FormatError::BadFlashIndicator
    } else {
        FormatError::Truncated
    }
}

fn read_entry(s: &[u8], off: usize) -> (r: Result<(TIEntry, usize), FormatError>)
    requires
        off <= s@.len(),
    ensures
        ({
            let t = s@.subrange(off as int, s@.len() as int);
            &&& r is Ok <==> entry_parses(t)
            &&& r is Err ==> r == Err::<(TIEntry, usize), FormatError>(entry_error(t))
            &&& r matches Ok((e, n)) ==> (n == entry_len_at(t) && entry_bytes(e) == t.subrange(
                0,
                n as int,
            ) && e.data@ == payload_at(t))
        }),
{
    let ghost t = s@.subrange(off as int, s@.len() as int);
    if s.len() - off < ENTRY_HEADER_LEN {
        return Err(FormatError::Truncated);
    }
    assert(forall|i: int| 0 <= i < t.len() ==> t[i] == s@[off + i]);
    let flash = read_u16(s, off);
    if flash != 0x0b && flash != 0x0d {
        return Err(FormatError::BadFlashIndicator);
    }
    let len2 = read_u16(s, off + 15);
    if s.len() - off - ENTRY_HEADER_LEN < len2 as usize {
        return Err(FormatError::Truncated);
    }
    let n = ENTRY_HEADER_LEN + len2 as usize;
    let data = copy_range(s, off + ENTRY_HEADER_LEN, off + n);
    let e = TIEntry {
        flash_indicator: flash,
        var_data_length: read_u16(s, off + 2),
        file_type: s[off + 4],
        name: [
            s[off + 5],
            s[off + 6],
            s[off + 7],
            s[off + 8],
            s[off + 9],
            s[off + 10],
            s[off + 11],
            s[off + 12],
        ],
        version: s[off + 13],
        flags: s[off + 14],
        var_data_length_2: len2,
        data,
    };
    proof {
        lemma_u16_le_at(t, 0);
        lemma_u16_le_at(t, 2);
        lemma_u16_le_at(t, 15);
        assert(data@ =~= payload_at(t));
        assert(entry_bytes(e) =~= t.subrange(0, n as int));
    }
    Ok((e, n))
}

/// A file container: envelope, one record, and a checksum of that record.
#[derive(Debug)]
pub struct TIFile {
    pub product_id: u8,
    pub comment: Vec<u8>,
    pub data_length: u16,
    pub entry: TIEntry,
    pub checksum: u16,
}

/// The bytes of a container.
pub open spec fn file_bytes(f: TIFile) -> Seq<u8> {
    file_magic() + seq![f.product_id] + f.comment@ + u16_le(f.data_length) + entry_bytes(f.entry)
        + u16_le(f.checksum)
}

/// The bytes after the container's envelope.
pub open spec fn after_header(s: Seq<u8>) -> Seq<u8> {
    s.subrange(56, s.len() as int)
}

/// Whether `s` starts with a whole container.
pub open spec fn file_parses(s: Seq<u8>) -> bool {
    &&& s.len() >= 56
    &&& s.subrange(0, 11) == file_magic()
    &&& entry_parses(after_header(s))
    &&& s.len() >= 56 + entry_len_at(after_header(s)) + 2
}

/// The error for bytes that do not start with a whole container.
pub open spec fn file_error(s: Seq<u8>) -> FormatError {
    if s.len() < 11 {
        FormatError::Truncated
    } else if s.subrange(0, 11) != file_magic() {
        FormatError::BadMagic
    } else if s.len() < 56 {
        FormatError::Truncated
    } else if !entry_parses(after_header(s)) {
        entry_error(after_header(s))
    } else {
        FormatError::Truncated
    }
}

impl TIFile {
    /// The comment has its fixed length and the record is well formed.
    pub open spec fn wf(&self) -> bool {
        &&& self.comment@.len() == 42
        &&& self.entry.wf()
    }

    /// Wraps a record in a container, deriving its size and checksum.
    pub fn from_entry(entry: TIEntry) -> (f: TIFile)
        requires
            entry.wf(),
        ensures
            f.wf(),
            f.entry == entry,
            f.product_id == 0,
            f.comment@ == file_comment(),
            f.data_length as nat == entry_bytes(f.entry).len(),
            f.checksum == wrapping_sum_u16(entry_bytes(f.entry)),
    {
        let comment: Vec<u8> = vec![
            0x47u8, 0x65, 0x6e, 0x65, 0x72, 0x61, 0x74, 0x65, 0x64, 0x20, 0x66, 0x6f, 0x72, 0x20,
            0x42, 0x41, 0x53, 0x49, 0x43, 0x6c, 0x69, 0x6e, 0x67, 0x73, 0x20, 0x61, 0x75, 0x74,
            0x6f, 0x6d, 0x61, 0x74, 0x65, 0x64, 0x20, 0x74, 0x65, 0x73, 0x74, 0x69, 0x6e, 0x67,
        ];
        assert(comment@ =~= file_comment());
        let data_length = entry.size();
        let checksum = entry.checksum();
        TIFile { product_id: 0, comment, data_length, entry, checksum }
    }

    /// The container's bytes.
    pub fn to_bytes(&self) -> (r: Vec<u8>)
        ensures
            r@ == file_bytes(*self),
    {
        let mut out: Vec<u8> = vec![0x2au8, 0x2a, 0x54, 0x49, 0x38, 0x33, 0x46, 0x2a, 0x1a, 0x0a, 0x00];
        assert(out@ =~= file_magic());
        out.push(self.product_id);
        append_bytes(&mut out, &self.comment);
        push_u16(&mut out, self.data_length);
        let entry = self.entry.to_bytes();
        append_bytes(&mut out, &entry);
        push_u16(&mut out, self.checksum);
        assert(out@ =~= file_bytes(*self));
        out
    }

    /// Reads a container from the start of `s`.
    pub fn from_bytes(s: &[u8]) -> (r: Result<TIFile, FormatError>)
        ensures
            r is Ok <==> file_parses(s@),
            r is Err ==> r == Err::<TIFile, FormatError>(file_error(s@)),
            r matches Ok(f) ==> ({
                let n = entry_len_at(after_header(s@)) as int;
                &&& f.entry.data@ == payload_at(after_header(s@))
                &&& f.data_length == u16_at(s@, 54)
                &&& f.checksum == u16_at(s@, 56 + n as int)
                &&& file_bytes(f) == s@.subrange(0, 56 + n as int + 2)
            }),
    {
        if s.len() < 11 {
            return Err(FormatError::Truncated);
        }
        let magic: Vec<u8> = vec![0x2au8, 0x2a, 0x54, 0x49, 0x38, 0x33, 0x46, 0x2a, 0x1a, 0x0a, 0x00];
        assert(magic@ =~= file_magic());
        let mut i: usize = 0;
        while i < 11
            invariant
                i <= 11 <= s@.len(),
                magic@ == file_magic(),
                forall|j: int| 0 <= j < i ==> s@[j] == magic@[j],
            decreases 11 - i,
        {
            if s[i] != magic[i] {
                assert(s@.subrange(0, 11)[i as int] != file_magic()[i as int]);
                return Err(FormatError::BadMagic);
            }
            i += 1;
        }
        assert(s@.subrange(0, 11) =~= file_magic());
        if s.len() < FILE_HEADER_LEN {
            return Err(FormatError::Truncated);
        }
        let (entry, n) = match read_entry(s, FILE_HEADER_LEN) {
            Ok(p) => p,
            Err(err) => {
                return Err(err);
            },
        };
        if s.len() - FILE_HEADER_LEN - n < 2 {
            return Err(FormatError::Truncated);
        }
        let ghost t = after_header(s@);
        let checksum = read_u16(s, FILE_HEADER_LEN + n);
        let f = TIFile {
            product_id: s[11],
            comment: copy_range(s, 12, 54),
            data_length: read_u16(s, 54),
            entry,
            checksum,
        };
        proof {
            lemma_u16_le_at(s@, 54);
            lemma_u16_le_at(s@, 56 + n);
            assert(t.subrange(0, n as int) =~= s@.subrange(56, 56 + n));
            assert(file_bytes(f) =~= s@.subrange(0, 56 + n + 2));
        }
        Ok(f)
    }
}

/// Decoding the bytes of a well-formed record finds the whole record again,
/// with the same payload.
pub proof fn lemma_entry_round_trip(e: TIEntry)
    requires
        e.wf(),
    ensures
        entry_parses(entry_bytes(e)),
        entry_len_at(entry_bytes(e)) == entry_bytes(e).len(),
        payload_at(entry_bytes(e)) == e.data@,
{
    let s = entry_bytes(e);
    assert(s.subrange(0, 2) =~= u16_le(e.flash_indicator));
    lemma_u16_round_trip(e.flash_indicator, s, 0);
    assert(s.subrange(15, 17) =~= u16_le(e.var_data_length_2));
    lemma_u16_round_trip(e.var_data_length_2, s, 15);
    assert(payload_at(s) =~= e.data@);
}

/// Decoding the bytes of a well-formed container finds the whole container
/// again, with the same payload, size field and checksum.
pub proof fn lemma_file_round_trip(f: TIFile)
    requires
        f.wf(),
    ensures
        file_parses(file_bytes(f)),
        payload_at(after_header(file_bytes(f))) == f.entry.data@,
        u16_at(file_bytes(f), 54) == f.data_length,
        u16_at(file_bytes(f), 56 + entry_bytes(f.entry).len() as int) == f.checksum,
{
    let s = file_bytes(f);
    let eb = entry_bytes(f.entry);
    lemma_entry_round_trip(f.entry);
    assert(s.subrange(0, 11) =~= file_magic());
    assert(after_header(s) =~= eb + u16_le(f.checksum));
    assert(after_header(s).subrange(0, eb.len() as int) =~= eb);
    assert(after_header(s).subrange(0, 2) =~= u16_le(f.entry.flash_indicator));
    lemma_u16_round_trip(f.entry.flash_indicator, after_header(s), 0);
    assert(after_header(s).subrange(15, 17) =~= u16_le(f.entry.var_data_length_2));
    lemma_u16_round_trip(f.entry.var_data_length_2, after_header(s), 15);
    assert(payload_at(after_header(s)) =~= f.entry.data@);
    assert(s.subrange(54, 56) =~= u16_le(f.data_length));
    lemma_u16_round_trip(f.data_length, s, 54);
    let k = 56 + eb.len() as int;
    assert(s.subrange(k, k + 2) =~= u16_le(f.checksum));
    lemma_u16_round_trip(f.checksum, s, k);
}

/// Reading the two bytes at `i` back as a 16-bit value gives those bytes.
proof fn lemma_u16_le_at(s: Seq<u8>, i: int)
    requires
        0 <= i && i + 2 <= s.len(),
    ensures
        u16_le(u16_at(s, i)) == s.subrange(i, i + 2),
{
    let v = u16_at(s, i);
    assert(s[i] + 256 * s[i + 1] < 65536);
    assert(v % 256 == s[i]) by (nonlinear_arith)
        requires v == s[i] + 256 * s[i + 1], s[i] < 256, s[i + 1] < 256;
    assert(v / 256 == s[i + 1]) by (nonlinear_arith)
        requires v == s[i] + 256 * s[i + 1], s[i] < 256, s[i + 1] < 256;
    assert(u16_le(v) =~= s.subrange(i, i + 2));
}

/// Reading back the bytes of a 16-bit value gives that value.
pub proof fn lemma_u16_round_trip(x: u16, s: Seq<u8>, i: int)
    requires
        0 <= i && i + 2 <= s.len(),
        s.subrange(i, i + 2) == u16_le(x),
    ensures
        u16_at(s, i) == x,
{
    assert(s[i] == s.subrange(i, i + 2)[0]);
    assert(s[i + 1] == s.subrange(i, i + 2)[1]);
    assert((x % 256) + 256 * (x / 256) == x) by (nonlinear_arith);
}

fn push_u16(out: &mut Vec<u8>, x: u16)
    ensures
        final(out)@ == old(out)@ + u16_le(x),
{
    out.push((x % 256) as u8);
    out.push((x / 256) as u8);
    assert(final(out)@ =~= old(out)@ + u16_le(x));
}

fn read_u16(s: &[u8], i: usize) -> (r: u16)
    requires
        i + 2 <= s@.len(),
    ensures
        r == u16_at(s@, i as int),
{
    s[i] as u16 + 256 * (s[i + 1] as u16)
}

/// Appends every byte of `src` to `out`.
pub fn append_bytes(out: &mut Vec<u8>, src: &Vec<u8>)
    ensures
        final(out)@ == old(out)@ + src@,
{
    let mut i: usize = 0;
    while i < src.len()
        invariant
            i <= src@.len(),
            out@ == old(out)@ + src@.subrange(0, i as int),
        decreases src@.len() - i,
    {
        out.push(src[i]);
        assert(src@.subrange(0, i + 1) == src@.subrange(0, i as int).push(src@[i as int]));
        i += 1;
    }
    assert(src@.subrange(0, src@.len() as int) == src@);
}

fn copy_range(s: &[u8], from: usize, to: usize) -> (r: Vec<u8>)
    requires
        from <= to <= s@.len(),
    ensures
        r@ == s@.subrange(from as int, to as int),
{
    let mut out: Vec<u8> = Vec::new();
    let mut i: usize = from;
    while i < to
        invariant
            from <= i <= to,
            to <= s@.len(),
            out@ == s@.subrange(from as int, i as int),
        decreases to - i,
    {
        out.push(s[i]);
        assert(s@.subrange(from as int, i + 1) == s@.subrange(from as int, i as int).push(
            s@[i as int],
        ));
        i += 1;
    }
    out
}

/// Wrapping 16-bit sum of `bytes`.
pub fn checksum_of(bytes: &Vec<u8>) -> (r: u16)
    ensures
        r == wrapping_sum_u16(bytes@),
{
    let mut acc: u16 = 0;
    let mut i: usize = 0;
    while i < bytes.len()
        invariant
            i <= bytes@.len(),
            acc == wrapping_sum_u16(bytes@.subrange(0, i as int)),
        decreases bytes@.len() - i,
    {
        let ghost prefix = bytes@.subrange(0, i as int);
        assert(bytes@.subrange(0, i + 1).drop_last() == prefix);
        acc = ((acc as u32 + bytes[i] as u32) % 65536) as u16;
        i += 1;
    }
    assert(bytes@.subrange(0, bytes@.len() as int) == bytes@);
    acc
}

} // verus!
