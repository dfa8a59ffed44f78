use elf::parse::{parse_u32_at, parse_u64_at, Class, Endian, ParseError};
use elf::section::{SectionFlag, SectionHeader, SectionHeaderIterator, SectionType};

#[test]
fn iter_32_trailing_partial_record_ignored() {
    // one whole 40-byte record plus 25 stray bytes: one item, clean end
    let mut data = [0u8; 65];
    for n in 0..65 {
        data[n] = n as u8;
    }
    let mut iter = SectionHeaderIterator::new(Endian::Little, Class::ELF32, &data);
    let first = iter.next().unwrap();
    assert_eq!(first.sh_name, 0x03020100);
    assert_eq!(first.sh_entsize, 0x27262524);
    assert!(iter.next().is_none());
    assert!(iter.next().is_none());
}

#[test]
fn iter_64_trailing_partial_record_ignored() {
    // one whole 64-byte record plus 63 stray bytes: one item, clean end
    let mut data = [0u8; 127];
    for n in 0..127 {
        data[n] = n as u8;
    }
    let mut iter = SectionHeaderIterator::new(Endian::Big, Class::ELF64, &data);
    let first = iter.next().unwrap();
    assert_eq!(first.sh_name, 0x00010203);
    assert_eq!(first.sh_entsize, 0x38393A3B3C3D3E3F);
    assert!(iter.next().is_none());
}

#[test]
fn iter_empty_buffer_yields_nothing() {
    let data = [0u8; 0];
    let mut iter = SectionHeaderIterator::new(Endian::Little, Class::ELF32, &data);
    assert!(iter.next().is_none());
}

#[test]
fn parse_error_reports_failing_field_offset() {
    // 9 bytes of a 32-bit record: the name and type fields fit, the flags
    // field at offset 8 does not
    let data = [0u8; 9];
    let mut offset: usize = 0;
    let result = SectionHeader::parse_at(Endian::Little, Class::ELF32, &mut offset, &data);
    assert_eq!(result, Err(ParseError::BadOffset(8)));
    assert_eq!(offset, 0);

    // 50 bytes of a 64-bit record: everything through sh_info fits, the
    // alignment field at offset 48 does not
    let data64 = [0u8; 50];
    let mut offset64: usize = 0;
    let result64 = SectionHeader::parse_at(Endian::Big, Class::ELF64, &mut offset64, &data64);
    assert_eq!(result64, Err(ParseError::BadOffset(48)));
    assert_eq!(offset64, 0);
}

#[test]
fn type_code_classification() {
    assert_eq!(SectionType(0).display_string(), "SHT_NULL");
    assert_eq!(SectionType(1).display_string(), "SHT_PROGBITS");
    assert_eq!(SectionType(3).display_string(), "SHT_STRTAB");
    assert_eq!(SectionType(8).display_string(), "SHT_NOBITS");
    assert_eq!(SectionType(11).display_string(), "SHT_DYNSYM");
    assert_eq!(SectionType(18).display_string(), "SHT_SYMTAB_SHNDX");
    assert_eq!(SectionType(0x6ffffff6).display_string(), "SHT_GNU_HASH");
    assert_eq!(SectionType(0x6fffffff).display_string(), "SHT_GNU_VERSYM");
    // a code outside the table is a valid, unrecognized classification
    assert_eq!(SectionType(0xFFFFFFFF).display_string(), "Unknown");
    assert_eq!(SectionType(12).display_string(), "Unknown");
}

#[test]
fn type_code_equals_raw_value_both_ways() {
    let t = SectionType(0x6ffffff5);
    assert!(t == 0x6ffffff5u32);
    assert!(0x6ffffff5u32 == t);
    assert!(t != 0x6ffffff6u32);
    assert!(0x6ffffff6u32 != t);
    assert_eq!(SectionType(7), SectionType(7));
}

#[test]
fn flag_display_is_prefixed_lowercase_hex() {
    assert_eq!(SectionFlag(0).display_string(), "0x0");
    assert_eq!(SectionFlag(0xB0A0908).display_string(), "0xb0a0908");
    assert_eq!(
        SectionFlag(0x48494A4B4C4D4E4F).display_string(),
        "0x48494a4b4c4d4e4f"
    );
    assert_eq!(SectionFlag(u64::MAX).display_string(), "0xffffffffffffffff");
    assert_eq!(SectionFlag(16).display_string(), "0x10");
}

#[test]
fn flag_display_same_from_either_class() {
    // the flags field of a 32-bit record is widened with zero extension and
    // displays exactly as the stored 64-bit value
    let mut data = [0u8; 40];
    for n in 0..40 {
        data[n] = n as u8;
    }
    let mut offset: usize = 0;
    let hdr = SectionHeader::parse_at(Endian::Little, Class::ELF32, &mut offset, &data).unwrap();
    assert_eq!(hdr.sh_flags, SectionFlag(0x0B0A0908));
    assert_eq!(hdr.sh_flags.display_string(), "0xb0a0908");
    assert_eq!(SectionFlag(0x0B0A0908u64).display_string(), "0xb0a0908");
}

#[test]
fn scalar_reads_honor_byte_order() {
    let data = [0x01u8, 0x02, 0x03, 0x04, 0x05, 0x06, 0x07, 0x08];
    let mut offset: usize = 0;
    assert_eq!(parse_u32_at(Endian::Little, &mut offset, &data), Ok(0x04030201));
    assert_eq!(offset, 4);
    let mut offset_be: usize = 0;
    assert_eq!(parse_u32_at(Endian::Big, &mut offset_be, &data), Ok(0x01020304));
    let mut offset64: usize = 0;
    assert_eq!(
        parse_u64_at(Endian::Little, &mut offset64, &data),
        Ok(0x0807060504030201)
    );
    assert_eq!(offset64, 8);
    let mut offset64_be: usize = 0;
    assert_eq!(
        parse_u64_at(Endian::Big, &mut offset64_be, &data),
        Ok(0x0102030405060708)
    );
}

#[test]
fn scalar_read_fails_without_moving_offset() {
    let data = [0u8; 7];
    let mut offset: usize = 5;
    assert_eq!(
        parse_u32_at(Endian::Little, &mut offset, &data),
        Err(ParseError::BadOffset(5))
    );
    assert_eq!(offset, 5);
    let mut offset8: usize = 0;
    assert_eq!(
        parse_u64_at(Endian::Big, &mut offset8, &data),
        Err(ParseError::BadOffset(0))
    );
    assert_eq!(offset8, 0);
}
