//! Turning variables and programs into records.
use vstd::prelude::*;
use crate::lesson::{type_tag, Variable, VariableData};
use crate::record::{
    after_header, file_parses, payload_at, lemma_u16_round_trip, append_bytes, entry_bytes, file_bytes, file_comment, file_magic, u16_le, wrapping_sum_u16,
    FormatError, TIEntry, TIFile,
};
use crate::tifloat::{real_payload, TiReal};
use crate::token::{token_bytes, tokenize, tokenized, tokens_to_bytes, Token};

verus! {

/// A name field: the first eight bytes, padded with zeros on the right.
pub open spec fn pad8(b: Seq<u8>) -> Seq<u8> {
    if b.len() >= 8 {
        b.subrange(0, 8)
    } else {
        b + Seq::new((8 - b.len()) as nat, |i: int| 0u8)
    }
}

/// The name field of a variable, or `None` where its name is not made of
/// tokens.
pub open spec fn name_field(name: Seq<char>) -> Option<Seq<u8>> {
    match tokenized(name) {
        Some(ts) => Some(pad8(token_bytes(ts))),
        None => None,
    }
}

/// The bytes of a list of reals, one after another, or `None` where one of
/// them cannot be held.
pub open spec fn reals_payload(xs: Seq<TiReal>) -> Option<Seq<u8>>
    decreases xs.len(),
{
    if xs.len() == 0 {
        Some(Seq::empty())
    } else {
        match (reals_payload(xs.drop_last()), real_payload(xs.last())) {
            (Some(a), Some(b)) => Some(a + b),
            _ => None,
        }
    }
}

/// A byte sequence after its 16-bit length.
pub open spec fn counted(n: nat, b: Seq<u8>) -> Seq<u8> {
    u16_le(n as u16) + b
}

/// The payload of a variable's record, or why there is none.
pub open spec fn variable_payload(v: VariableData) -> Result<Seq<u8>, FormatError> {
    match v {
        VariableData::String(t) => match tokenized(t@) {
            None => Err(FormatError::Untokenizable),
            Some(ts) => if token_bytes(ts).len() > 0xffff {
                Err(FormatError::TooLarge)
            } else {
                Ok(counted(token_bytes(ts).len(), token_bytes(ts)))
            },
        },
        VariableData::RealList(xs) => if xs@.len() > 0xffff {
            Err(FormatError::TooLarge)
        } else {
            match reals_payload(xs@) {
                None => Err(FormatError::BadNumber),
                Some(b) => Ok(counted(xs@.len(), b)),
            }
        },
        VariableData::RealNumber(x) => match real_payload(x) {
            None => Err(FormatError::BadNumber),
            Some(b) => Ok(b),
        },
    }
}

/// `r` is a record of the given name field, type and payload, with the
/// default header, or `TooLarge` where the payload does not fit.
pub open spec fn record_of(r: Result<TIEntry, FormatError>, name: Seq<u8>, tag: u8, payload: Seq<
    u8,
>) -> bool {
    if payload.len() + 17 > 0xffff {
        r == Err::<TIEntry, FormatError>(FormatError::TooLarge)
    } else {
        &&& r is Ok
        &&& r->Ok_0.wf()
        &&& r->Ok_0.name@ == name
        &&& r->Ok_0.file_type == tag
        &&& r->Ok_0.data@ == payload
        &&& r->Ok_0.flash_indicator == 0x0d
        &&& r->Ok_0.version == 0
        &&& r->Ok_0.flags == 0
    }
}

/// What encoding a variable gives.
pub open spec fn encodes_variable(v: Variable, r: Result<TIEntry, FormatError>) -> bool {
    match name_field(v.name@) {
        None => r == Err::<TIEntry, FormatError>(FormatError::Untokenizable),
        Some(n) => match variable_payload(v.value) {
            Err(e) => r == Err::<TIEntry, FormatError>(e),
            Ok(p) => record_of(r, n, type_tag(v.value), p),
        },
    }
}

/// The name under which programs are sent: "TESTPROG".
pub open spec fn program_name() -> Seq<u8> {
    seq![0x54u8, 0x45, 0x53, 0x54, 0x50, 0x52, 0x4f, 0x47]
}

/// The record type of a program.
pub const PROGRAM_TYPE: u8 = 0x05;

/// What encoding a program gives.
pub open spec fn encodes_program(tokens: Seq<Token>, r: Result<TIEntry, FormatError>) -> bool {
    let b = token_bytes(tokens);
    if b.len() > 0xffff {
        r == Err::<TIEntry, FormatError>(FormatError::TooLarge)
    } else {
        record_of(r, program_name(), PROGRAM_TYPE, counted(b.len(), b))
    }
}

/// The payload of a variable's record, or why it cannot be encoded.
pub open spec fn variable_record(v: Variable) -> Result<Seq<u8>, FormatError> {
    match name_field(v.name@) {
        None => Err(FormatError::Untokenizable),
        Some(n) => match variable_payload(v.value) {
            Err(e) => Err(e),
            Ok(p) => if p.len() + 17 > 0xffff {
                Err(FormatError::TooLarge)
            } else {
                Ok(p)
            },
        },
    }
}

/// The bytes of a record with the default header.
pub open spec fn entry_seq(name: Seq<u8>, tag: u8, payload: Seq<u8>) -> Seq<u8> {
    u16_le(0x0d) + u16_le(payload.len() as u16) + seq![tag] + name + seq![0u8, 0u8] + u16_le(
        payload.len() as u16,
    ) + payload
}

/// The bytes of a container around the record bytes `entry`.
pub open spec fn file_seq(entry: Seq<u8>) -> Seq<u8> {
    file_magic() + seq![0u8] + file_comment() + u16_le(entry.len() as u16) + entry + u16_le(
        wrapping_sum_u16(entry),
    )
}

/// The file that holds a variable, or why it cannot be encoded.
#[verifier::opaque]
pub open spec fn variable_file(v: Variable) -> Result<Seq<u8>, FormatError> {
    match name_field(v.name@) {
        None => Err(FormatError::Untokenizable),
        Some(n) => match variable_payload(v.value) {
            Err(e) => Err(e),
            Ok(p) => if p.len() + 17 > 0xffff {
                Err(FormatError::TooLarge)
            } else {
                Ok(file_seq(entry_seq(n, type_tag(v.value), p)))
            },
        },
    }
}

/// The file that holds a program, or why it cannot be encoded.
pub open spec fn program_file(tokens: Seq<Token>) -> Result<Seq<u8>, FormatError> {
    let b = token_bytes(tokens);
    if b.len() > 0xffff || b.len() + 19 > 0xffff {
        Err(FormatError::TooLarge)
    } else {
        Ok(file_seq(entry_seq(program_name(), PROGRAM_TYPE, counted(b.len(), b))))
    }
}

/// The bytes that a result holds, or its error.
pub open spec fn result_bytes(r: Result<Vec<u8>, FormatError>) -> Result<Seq<u8>, FormatError> {
    match r {
        Ok(b) => Ok(b@),
        Err(e) => Err(e),
    }
}

/// The bytes of a record's container.
fn container_bytes(e: TIEntry) -> (r: Vec<u8>)
    requires
        e.wf(),
        e.flash_indicator == 0x0d,
        e.version == 0,
        e.flags == 0,
    ensures
        r@ == file_seq(entry_seq(e.name@, e.file_type, e.data@)),
{
    let ghost es = entry_seq(e.name@, e.file_type, e.data@);
    assert(entry_bytes(e) =~= es);
    let f = TIFile::from_entry(e);
    let r = f.to_bytes();
    assert(file_bytes(f) =~= file_seq(es));
    r
}

/// The file that holds a variable.
pub fn variable_file_bytes(v: &Variable) -> (r: Result<Vec<u8>, FormatError>)
    ensures
        result_bytes(r) == variable_file(*v),
{
    reveal(variable_file);
    match TIEntry::from_variable(v) {
        Err(e) => Err(e),
        Ok(e) => Ok(container_bytes(e)),
    }
}

/// The file that holds a program.
pub fn program_file_bytes(tokens: &Vec<Token>) -> (r: Result<Vec<u8>, FormatError>)
    ensures
        result_bytes(r) == program_file(tokens@),
{
    match TIEntry::from_program(tokens) {
        Err(e) => Err(e),
        Ok(e) => Ok(container_bytes(e)),
    }
}

/// Encoding a variable gives the payload that `variable_record` names.
pub proof fn lemma_encodes_record(v: Variable, r: Result<TIEntry, FormatError>)
    requires
        encodes_variable(v, r),
    ensures
        r matches Ok(e) ==> variable_record(v) == Ok::<Seq<u8>, FormatError>(e.data@),
        r matches Err(e) ==> variable_record(v) == Err::<Seq<u8>, FormatError>(e),
{
}

/// The bytes of a container built around a record with the default header
/// decode again, to the same payload.
pub proof fn lemma_file_seq_round_trip(name: Seq<u8>, tag: u8, payload: Seq<u8>)
    requires
        name.len() == 8,
        payload.len() + 17 <= 0xffff,
    ensures
        file_parses(file_seq(entry_seq(name, tag, payload))),
        payload_at(after_header(file_seq(entry_seq(name, tag, payload)))) == payload,
{
    let e = entry_seq(name, tag, payload);
    let s = file_seq(e);
    let t = after_header(s);
    assert(s.subrange(0, 11) =~= file_magic());
    assert(t =~= e + u16_le(wrapping_sum_u16(e)));
    assert(t.subrange(0, 2) =~= u16_le(0x0d));
    lemma_u16_round_trip(0x0d, t, 0);
    assert(t.subrange(15, 17) =~= u16_le(payload.len() as u16));
    lemma_u16_round_trip(payload.len() as u16, t, 15);
    assert(payload_at(t) =~= payload);
}

/// A variable that can be encoded has a file that decodes to its record's
/// payload.
pub proof fn lemma_variable_round_trip(v: Variable)
    requires
        variable_file(v) is Ok,
    ensures
        variable_record(v) is Ok,
        file_parses(variable_file(v)->Ok_0),
        payload_at(after_header(variable_file(v)->Ok_0)) == variable_record(v)->Ok_0,
{
    reveal(variable_file);
    let n = name_field(v.name@)->Some_0;
    let p = variable_payload(v.value)->Ok_0;
    let b = token_bytes(tokenized(v.name@)->Some_0);
    if b.len() < 8 {
        assert(pad8(b).len() == 8);
    }
    lemma_file_seq_round_trip(n, type_tag(v.value), p);
}

fn name_array(b: &Vec<u8>) -> (r: [u8; 8])
    ensures
        r@ == pad8(b@),
{
    let mut p: Vec<u8> = Vec::new();
    let mut i: usize = 0;
    while i < 8
        invariant
            i <= 8,
            p@.len() == i,
            forall|j: int| 0 <= j < i ==> p@[j] == pad8(b@)[j],
        decreases 8 - i,
    {
        if i < b.len() {
            p.push(b[i]);
        } else {
            p.push(0);
        }
        i += 1;
    }
    let r = [p[0], p[1], p[2], p[3], p[4], p[5], p[6], p[7]];
    assert(r@ =~= pad8(b@));
    r
}

fn counted_bytes(b: &Vec<u8>) -> (r: Vec<u8>)
    requires
        b@.len() <= 0xffff,
    ensures
        r@ == counted(b@.len(), b@),
{
    let n = b.len() as u16;
    let mut out: Vec<u8> = vec![(n % 256) as u8, (n / 256) as u8];
    assert(out@ =~= u16_le(n));
    append_bytes(&mut out, b);
    out
}

fn reals_bytes(xs: &Vec<TiReal>) -> (r: Option<Vec<u8>>)
    ensures
        r matches Some(b) ==> reals_payload(xs@) == Some(b@),
        r is None ==> reals_payload(xs@) is None,
{
    let mut out: Vec<u8> = Vec::new();
    let mut i: usize = 0;
    while i < xs.len()
        invariant
            i <= xs@.len(),
            reals_payload(xs@.subrange(0, i as int)) == Some(out@),
        decreases xs@.len() - i,
    {
        assert(xs@.subrange(0, i + 1).drop_last() == xs@.subrange(0, i as int));
        match xs[i].to_raw_bytes() {
            None => {
                proof {
                    lemma_reals_prefix_none(xs@, i as int + 1);
                }
                assert(xs@.subrange(0, xs@.len() as int) == xs@);
                return None;
            },
            Some(b) => {
                append_bytes(&mut out, &b);
            },
        }
        i += 1;
    }
    assert(xs@.subrange(0, xs@.len() as int) == xs@);
    Some(out)
}

/// Once a prefix of a list cannot be held, neither can the list.
proof fn lemma_reals_prefix_none(xs: Seq<TiReal>, k: int)
    requires
        0 <= k <= xs.len(),
        reals_payload(xs.subrange(0, k)) is None,
    ensures
        reals_payload(xs) is None,
    decreases xs.len() - k,
{
    if k < xs.len() {
        assert(xs.subrange(0, k + 1).drop_last() == xs.subrange(0, k));
        lemma_reals_prefix_none(xs, k + 1);
    } else {
        assert(xs.subrange(0, k) == xs);
    }
}

impl TIEntry {
    /// The record of a variable: its name as tokens in the name field, and a
    /// payload by kind (counted tokens for a string, a count and nine bytes
    /// per element for a list, nine bytes for a number).
    pub fn from_variable(v: &Variable) -> (r: Result<TIEntry, FormatError>)
        ensures
            encodes_variable(*v, r),
    {
        let name = match tokenize(v.name.as_str()) {
            None => {
                return Err(FormatError::Untokenizable);
            },
            Some(ts) => name_array(&tokens_to_bytes(&ts)),
        };
        let (tag, data) = match &v.value {
            VariableData::String(text) => match tokenize(text.as_str()) {
                None => {
                    return Err(FormatError::Untokenizable);
                },
                Some(ts) => {
                    let b = tokens_to_bytes(&ts);
                    if b.len() > 0xffff {
                        return Err(FormatError::TooLarge);
                    }
                    (0x04u8, counted_bytes(&b))
                },
            },
            VariableData::RealList(xs) => {
                if xs.len() > 0xffff {
                    return Err(FormatError::TooLarge);
                }
                match reals_bytes(xs) {
                    None => {
                        return Err(FormatError::BadNumber);
                    },
                    Some(b) => {
                        let n = xs.len() as u16;
                        let mut out: Vec<u8> = vec![(n % 256) as u8, (n / 256) as u8];
                        assert(out@ =~= u16_le(n));
                        append_bytes(&mut out, &b);
                        (0x01u8, out)
                    },
                }
            },
            VariableData::RealNumber(x) => match x.to_raw_bytes() {
                None => {
                    return Err(FormatError::BadNumber);
                },
                Some(b) => (0x00u8, b),
            },
        };
        TIEntry::new(name, tag, data)
    }

    /// The record of a program: its tokens, counted, under the name
    /// "TESTPROG".
    pub fn from_program(tokens: &Vec<Token>) -> (r: Result<TIEntry, FormatError>)
        ensures
            encodes_program(tokens@, r),
    {
        let b = tokens_to_bytes(tokens);
        if b.len() > 0xffff {
            return Err(FormatError::TooLarge);
        }
        let data = counted_bytes(&b);
        let name: [u8; 8] = [0x54u8, 0x45, 0x53, 0x54, 0x50, 0x52, 0x4f, 0x47];
        assert(name@ =~= program_name());
        TIEntry::new(name, PROGRAM_TYPE, data)
    }
}

} // verus!
