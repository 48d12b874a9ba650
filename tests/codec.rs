use basiclings::encode::{program_file_bytes, variable_file_bytes};
use basiclings::lesson::{Variable, VariableData};
use basiclings::record::{checksum_of, FormatError, TIEntry, TIFile};
use basiclings::tifloat::TiReal;
use basiclings::token::Token;

fn ti_real(negative: bool, exponent: i8, lead: &[u8]) -> TiReal {
    let mut digits = lead.to_vec();
    while digits.len() < 15 {
        digits.push(0);
    }
    TiReal { negative, exponent, digits }
}

fn var(name: &str, value: VariableData) -> Variable {
    Variable { name: name.to_string(), value }
}

fn round_trip_payload(v: &Variable) {
    let entry = TIEntry::from_variable(v).unwrap();
    let bytes = TIFile::from_entry(TIEntry::from_variable(v).unwrap()).to_bytes();
    let decoded = TIFile::from_bytes(&bytes).unwrap();
    assert_eq!(decoded.entry.data, entry.data);
    assert_eq!(decoded.entry.name, entry.name);
}

#[test]
fn round_trip_real_number() {
    round_trip_payload(&var("A", VariableData::RealNumber(ti_real(true, 1, &[1, 2, 5]))));
}

#[test]
fn round_trip_real_list() {
    let list = vec![ti_real(false, 0, &[4]), ti_real(true, -3, &[7, 5])];
    round_trip_payload(&var("L1", VariableData::RealList(list)));
}

#[test]
fn round_trip_string() {
    round_trip_payload(&var("Str1", VariableData::String("HELLO".to_string())));
}

#[test]
fn entry_bytes_layout() {
    let e = TIEntry::new(*b"AB\0\0\0\0\0\0", 0x00, vec![1, 2, 3]).unwrap();
    let b = e.to_bytes();
    assert_eq!(
        b,
        vec![0x0d, 0, 3, 0, 0, b'A', b'B', 0, 0, 0, 0, 0, 0, 0, 0, 3, 0, 1, 2, 3]
    );
    assert_eq!(e.size(), 20);
    let sum: u32 = b.iter().map(|&x| x as u32).sum();
    assert_eq!(e.checksum() as u32, sum % 65536);
}

#[test]
fn container_size_and_checksum() {
    let e = TIEntry::new(*b"AB\0\0\0\0\0\0", 0x00, vec![0xff; 300]).unwrap();
    let record = e.to_bytes();
    let f = TIFile::from_entry(e);
    assert_eq!(f.data_length as usize, record.len());
    let sum: u32 = record.iter().map(|&x| x as u32).sum();
    assert_eq!(f.checksum as u32, sum % 65536);
    assert_eq!(checksum_of(&record), f.checksum);
    let bytes = f.to_bytes();
    assert_eq!(&bytes[0..11], b"**TI83F*\x1a\x0a\x00");
    assert_eq!(&bytes[12..54], b"Generated for BASIClings automated testing");
    assert_eq!(bytes.len(), 56 + record.len() + 2);
    let n = bytes.len();
    assert_eq!(u16::from_le_bytes([bytes[n - 2], bytes[n - 1]]), f.checksum);
}

#[test]
fn payload_too_large_is_refused() {
    assert!(matches!(TIEntry::new([0; 8], 0, vec![0; 65519]), Err(FormatError::TooLarge)));
    assert!(TIEntry::new([0; 8], 0, vec![0; 65518]).is_ok());
}

#[test]
fn decode_errors() {
    assert!(matches!(TIFile::from_bytes(b"**TI8"), Err(FormatError::Truncated)));
    assert!(matches!(TIFile::from_bytes(b"**TI83X*\x1a\x0a\x00rest"), Err(FormatError::BadMagic)));
    let e = TIEntry::new([0; 8], 0, vec![9, 9]).unwrap();
    let mut bytes = TIFile::from_entry(e).to_bytes();
    bytes[56] = 0x0c;
    assert!(matches!(TIFile::from_bytes(&bytes), Err(FormatError::BadFlashIndicator)));
    bytes[56] = 0x0b;
    assert!(TIFile::from_bytes(&bytes).is_ok());
    bytes.truncate(bytes.len() - 3);
    assert!(matches!(TIFile::from_bytes(&bytes), Err(FormatError::Truncated)));
    assert!(matches!(TIEntry::from_bytes(&[0x0d, 0, 0]), Err(FormatError::Truncated)));
}

#[test]
fn real_number_payload() {
    let e = TIEntry::from_variable(&var("A", VariableData::RealNumber(ti_real(true, 1, &[1, 2, 5])))).unwrap();
    assert_eq!(e.file_type, 0x00);
    assert_eq!(e.data, vec![0x80, 0x81, 0x12, 0x50, 0, 0, 0, 0, 0]);
    assert_eq!(&e.name, b"A\0\0\0\0\0\0\0");
}

#[test]
fn real_list_payload() {
    let list = vec![ti_real(false, 0, &[4]), ti_real(false, 2, &[3, 1, 4])];
    let e = TIEntry::from_variable(&var("B", VariableData::RealList(list))).unwrap();
    assert_eq!(e.file_type, 0x01);
    assert_eq!(
        e.data,
        vec![2, 0, 0x00, 0x80, 0x40, 0, 0, 0, 0, 0, 0, 0x00, 0x82, 0x31, 0x40, 0, 0, 0, 0, 0]
    );
}

#[test]
fn string_payload_is_counted_tokens() {
    let e = TIEntry::from_variable(&var("Str1", VariableData::String("AB".to_string()))).unwrap();
    assert_eq!(e.file_type, 0x04);
    assert_eq!(e.data, vec![2, 0, 0x41, 0x42]);
}

#[test]
fn bad_numbers_are_refused() {
    let big = TiReal { negative: false, exponent: 100, digits: vec![1; 15] };
    assert!(matches!(
        TIEntry::from_variable(&var("A", VariableData::RealNumber(big))),
        Err(FormatError::BadNumber)
    ));
    let not_digit = TiReal { negative: false, exponent: 0, digits: vec![12; 15] };
    assert!(matches!(
        TIEntry::from_variable(&var("A", VariableData::RealNumber(not_digit))),
        Err(FormatError::BadNumber)
    ));
}

#[test]
fn untokenizable_name_is_refused() {
    let v = var("\u{1F600}", VariableData::RealNumber(TiReal::zero()));
    assert!(matches!(TIEntry::from_variable(&v), Err(FormatError::Untokenizable)));
}

#[test]
fn program_record() {
    let tokens = vec![Token::OneByte(0x41), Token::TwoByte(0x5d, 0x00)];
    let e = TIEntry::from_program(&tokens).unwrap();
    assert_eq!(&e.name, b"TESTPROG");
    assert_eq!(e.file_type, 0x05);
    assert_eq!(e.data, vec![3, 0, 0x41, 0x5d, 0x00]);
    let file = program_file_bytes(&tokens).unwrap();
    let decoded = TIFile::from_bytes(&file).unwrap();
    assert_eq!(decoded.entry.data, e.data);
}

#[test]
fn variable_file_matches_container() {
    let v = var("A", VariableData::RealNumber(ti_real(false, 0, &[4])));
    let bytes = variable_file_bytes(&v).unwrap();
    let e = TIEntry::from_variable(&v).unwrap();
    assert_eq!(bytes, TIFile::from_entry(e).to_bytes());
}

#[test]
fn zero_real_encoding() {
    let z = TiReal::zero();
    assert!(!z.negative);
    assert_eq!(z.exponent, 0);
    assert_eq!(z.digits, vec![0; 15]);
    assert_eq!(z.to_raw_bytes().unwrap(), vec![0x00, 0x80, 0, 0, 0, 0, 0, 0, 0]);
}

#[test]
fn negative_twelve_and_a_half_encoding() {
    let x = ti_real(true, 1, &[1, 2, 5]);
    assert_eq!(x.to_raw_bytes().unwrap(), vec![0x80, 0x81, 0x12, 0x50, 0, 0, 0, 0, 0]);
}

#[test]
fn fifteenth_digit_rounds() {
    let mut digits = vec![1; 14];
    digits.push(7);
    let x = TiReal { negative: false, exponent: 0, digits };
    assert_eq!(x.to_raw_bytes().unwrap(), vec![0x00, 0x80, 0x11, 0x11, 0x11, 0x11, 0x11, 0x11, 0x12]);
}
