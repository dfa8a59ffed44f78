//! The section-header record: its canonical in-memory form, the decoder
//! from the four on-disk shapes (two classes, two byte orders), and a lazy
//! finite sequence over a whole table of records.

use crate::gabi;
use crate::parse::{parse_u32_at, parse_u64_at, word_at, Class, Endian, ParseError};
use vstd::prelude::*;

verus! {

/// One decoded section-header record, class-independent: the five
/// address-sized fields and the flags are zero-extended to 64 bits when the
/// on-disk class stores them in 32.
#[derive(Copy, Clone, Debug, PartialEq, Eq, Structural)]
pub struct SectionHeader {
    /// Offset of the section's name in an external string table.
    pub sh_name: u32,
    /// Classified section type code.
    pub sh_type: SectionType,
    /// Section flags bitmask.
    pub sh_flags: SectionFlag,
    /// In-memory address where the section is loaded.
    pub sh_addr: u64,
    /// Byte offset in the file where the section starts.
    pub sh_offset: u64,
    /// Section size in bytes.
    pub sh_size: u64,
    /// Meaning defined by the section type.
    pub sh_link: u32,
    /// Meaning defined by the section type.
    pub sh_info: u32,
    /// Required address alignment.
    pub sh_addralign: u64,
    /// Entry size when the section holds an array of entries.
    pub sh_entsize: u64,
}

/// A section's raw 32-bit type code; classified into a symbolic name by
/// [`SectionType::display_string`], with unknown codes a valid outcome.
#[derive(Copy, Clone, Debug, PartialEq, Eq, Structural)]
pub struct SectionType(pub u32);

/// A section's raw 64-bit flags bitmask; no bit-level decomposition is done
/// here.
#[derive(Copy, Clone, Debug, PartialEq, Eq, Structural)]
pub struct SectionFlag(pub u64);

/// On-disk width in bytes of field `i` of a record: the name, type, link
/// and info fields are 32-bit in both classes; the rest follow the class.
pub open spec fn field_width(c: Class, i: int) -> int {
    match c {
        Class::ELF32 => 4,
        Class::ELF64 => if i == 0 || i == 1 || i == 6 || i == 7 {
            4
        } else {
            8
        },
    }
}

/// Byte offset of field `i` from the start of a record: the sum of the
/// widths of the fields before it.
pub open spec fn field_offset(c: Class, i: int) -> int
    decreases i,
{
    if i <= 0 {
        0
    } else {
        field_offset(c, i - 1) + field_width(c, i - 1)
    }
}

/// Byte length of one whole record, derived from the field widths.
pub open spec fn shdr_size(c: Class) -> int {
    field_offset(c, 10)
}

proof fn lemma_layout32()
    ensures
        field_offset(Class::ELF32, 0) == 0,
        field_offset(Class::ELF32, 1) == 4,
        field_offset(Class::ELF32, 2) == 8,
        field_offset(Class::ELF32, 3) == 12,
        field_offset(Class::ELF32, 4) == 16,
        field_offset(Class::ELF32, 5) == 20,
        field_offset(Class::ELF32, 6) == 24,
        field_offset(Class::ELF32, 7) == 28,
        field_offset(Class::ELF32, 8) == 32,
        field_offset(Class::ELF32, 9) == 36,
        field_offset(Class::ELF32, 10) == 40,
{
    assert(field_offset(Class::ELF32, 0) == 0);
    assert(field_offset(Class::ELF32, 1) == 4);
    assert(field_offset(Class::ELF32, 2) == 8);
    assert(field_offset(Class::ELF32, 3) == 12);
    assert(field_offset(Class::ELF32, 4) == 16);
    assert(field_offset(Class::ELF32, 5) == 20);
    assert(field_offset(Class::ELF32, 6) == 24);
    assert(field_offset(Class::ELF32, 7) == 28);
    assert(field_offset(Class::ELF32, 8) == 32);
    assert(field_offset(Class::ELF32, 9) == 36);
    assert(field_offset(Class::ELF32, 10) == 40);
}

proof fn lemma_layout64()
    ensures
        field_offset(Class::ELF64, 0) == 0,
        field_offset(Class::ELF64, 1) == 4,
        field_offset(Class::ELF64, 2) == 8,
        field_offset(Class::ELF64, 3) == 16,
        field_offset(Class::ELF64, 4) == 24,
        field_offset(Class::ELF64, 5) == 32,
        field_offset(Class::ELF64, 6) == 40,
        field_offset(Class::ELF64, 7) == 44,
        field_offset(Class::ELF64, 8) == 48,
        field_offset(Class::ELF64, 9) == 56,
        field_offset(Class::ELF64, 10) == 64,
{
    assert(field_offset(Class::ELF64, 0) == 0);
    assert(field_offset(Class::ELF64, 1) == 4);
    assert(field_offset(Class::ELF64, 2) == 8);
    assert(field_offset(Class::ELF64, 3) == 16);
    assert(field_offset(Class::ELF64, 4) == 24);
    assert(field_offset(Class::ELF64, 5) == 32);
    assert(field_offset(Class::ELF64, 6) == 40);
    assert(field_offset(Class::ELF64, 7) == 44);
    assert(field_offset(Class::ELF64, 8) == 48);
    assert(field_offset(Class::ELF64, 9) == 56);
    assert(field_offset(Class::ELF64, 10) == 64);
}

/// The record lengths that the field-width table adds up to.
pub proof fn lemma_shdr_sizes()
    ensures
        shdr_size(Class::ELF32) == 40,
        shdr_size(Class::ELF64) == 64,
{
    lemma_layout32();
    lemma_layout64();
}

/// The raw integer stored in field `i` of the record that starts at `pos`.
pub open spec fn spec_field(e: Endian, c: Class, data: Seq<u8>, pos: int, i: int) -> nat {
    word_at(e, data, pos + field_offset(c, i), field_width(c, i))
}

/// The record that starts at byte `pos` of `data`, decoded under byte order
/// `e` and class `c`, with the class-dependent fields zero-extended.
pub open spec fn spec_shdr(e: Endian, c: Class, data: Seq<u8>, pos: int) -> SectionHeader {
    SectionHeader {
        sh_name: spec_field(e, c, data, pos, 0) as u32,
        sh_type: SectionType(spec_field(e, c, data, pos, 1) as u32),
        sh_flags: SectionFlag(spec_field(e, c, data, pos, 2) as u64),
        sh_addr: spec_field(e, c, data, pos, 3) as u64,
        sh_offset: spec_field(e, c, data, pos, 4) as u64,
        sh_size: spec_field(e, c, data, pos, 5) as u64,
        sh_link: spec_field(e, c, data, pos, 6) as u32,
        sh_info: spec_field(e, c, data, pos, 7) as u32,
        sh_addralign: spec_field(e, c, data, pos, 8) as u64,
        sh_entsize: spec_field(e, c, data, pos, 9) as u64,
    }
}

fn field_width_of(c: Class, i: usize) -> (w: usize)
    ensures
        w == field_width(c, i as int),
{
    match c {
        Class::ELF32 => 4,
        Class::ELF64 => if i == 0 || i == 1 || i == 6 || i == 7 {
            4
        } else {
            8
        },
    }
}

/// Byte length of one whole record of class `c`.
pub fn shdr_size_of(c: Class) -> (n: usize)
    ensures
        n == shdr_size(c),
{
    proof {
        lemma_shdr_sizes();
    }
    match c {
        Class::ELF32 => 40,
        Class::ELF64 => 64,
    }
}

/// Walking the fields of the record that starts at `pos` in a buffer of
/// `len` bytes, the start of the first field whose read cannot be
/// satisfied; the start of the last field if every field fits.
pub open spec fn fail_offset_from(c: Class, pos: int, len: int, i: int) -> int
    decreases 10 - i,
{
    if i >= 9 {
        pos + field_offset(c, 9)
    } else if pos + field_offset(c, i) + field_width(c, i) > len {
        pos + field_offset(c, i)
    } else {
        fail_offset_from(c, pos, len, i + 1)
    }
}

/// The offset that a failed decode of the record at `pos` reports: where
/// the first unsatisfiable field read would have started.
pub open spec fn fail_offset(c: Class, pos: int, len: int) -> int {
    fail_offset_from(c, pos, len, 0)
}

fn first_bad_offset(c: Class, pos: usize, len: usize) -> (o: usize)
    ensures
        o == fail_offset(c, pos as int, len as int),
{
    let mut i: usize = 0;
    let mut o: usize = pos;
    loop
        invariant
            0 <= i <= 9,
            o == pos + field_offset(c, i as int),
            fail_offset(c, pos as int, len as int) == fail_offset_from(
                c,
                pos as int,
                len as int,
                i as int,
            ),
        decreases 9 - i,
    {
        let w = field_width_of(c, i);
        if i >= 9 || o > len || len - o < w {
            return o;
        }
        o = o + w;
        i = i + 1;
    }
}

impl SectionHeader {
    /// Decodes the ten fields of the record that starts at `*offset`,
    /// strictly in their on-disk order, widening the class-dependent ones,
    /// and advances the offset past the last field read. The call is
    /// all-or-nothing: when the remaining buffer falls short of any field,
    /// it fails with the offset of the first read that could not be
    /// satisfied, builds no partial record, and moves the cursor nowhere.
    pub fn parse_at(endian: Endian, class: Class, offset: &mut usize, data: &[u8]) -> (r: Result<
        SectionHeader,
        ParseError,
    >)
        ensures
            *old(offset) + shdr_size(class) <= data@.len() ==> r == Ok::<
                SectionHeader,
                ParseError,
            >(spec_shdr(endian, class, data@, *old(offset) as int)) && *final(offset) == *old(
                offset,
            ) + shdr_size(class),
            *old(offset) + shdr_size(class) > data@.len() ==> r == Err::<
                SectionHeader,
                ParseError,
            >(ParseError::BadOffset(
                fail_offset(class, *old(offset) as int, data@.len() as int) as u64,
            ))
                && *final(offset) == *old(offset),
    {
        broadcast use crate::parse::lemma_word4_bound, crate::parse::lemma_word8_bound;

        proof {
            lemma_shdr_sizes();
            lemma_layout32();
            lemma_layout64();
        }
        let size = shdr_size_of(class);
        let pos = *offset;
        if data.len() < size || pos > data.len() - size {
            let bad = first_bad_offset(class, pos, data.len());
            return Err(ParseError::BadOffset(bad as u64));
        }
        let mut cur = pos;
        let hdr = match class {
            Class::ELF32 => SectionHeader {
                sh_name: parse_u32_at(endian, &mut cur, data)?,
                sh_type: SectionType(parse_u32_at(endian, &mut cur, data)?),
                sh_flags: SectionFlag(
                    parse_u32_at(endian, &mut cur, data)? as u64,
                ),
                sh_addr: parse_u32_at(endian, &mut cur, data)? as u64,
                sh_offset: parse_u32_at(endian, &mut cur, data)? as u64,
                sh_size: parse_u32_at(endian, &mut cur, data)? as u64,
                sh_link: parse_u32_at(endian, &mut cur, data)?,
                sh_info: parse_u32_at(endian, &mut cur, data)?,
                sh_addralign: parse_u32_at(endian, &mut cur, data)? as u64,
                sh_entsize: parse_u32_at(endian, &mut cur, data)? as u64,
            },
            Class::ELF64 => SectionHeader {
                sh_name: parse_u32_at(endian, &mut cur, data)?,
                sh_type: SectionType(parse_u32_at(endian, &mut cur, data)?),
                sh_flags: SectionFlag(parse_u64_at(endian, &mut cur, data)?),
                sh_addr: parse_u64_at(endian, &mut cur, data)?,
                sh_offset: parse_u64_at(endian, &mut cur, data)?,
                sh_size: parse_u64_at(endian, &mut cur, data)?,
                sh_link: parse_u32_at(endian, &mut cur, data)?,
                sh_info: parse_u32_at(endian, &mut cur, data)?,
                sh_addralign: parse_u64_at(endian, &mut cur, data)?,
                sh_entsize: parse_u64_at(endian, &mut cur, data)?,
            },
        };
        *offset = pos + size;
        Ok(hdr)
    }
}

/// The symbolic name of a section type code: a fixed, exact-match table of
/// the standard and common vendor-extension codes; any other code
/// classifies as unrecognized, which is a valid outcome, never an error.
pub open spec fn type_code_name(code: u32) -> Seq<char> {
    if code == gabi::SHT_NULL {
        "SHT_NULL"@
    } else if code == gabi::SHT_PROGBITS {
        "SHT_PROGBITS"@
    } else if code == gabi::SHT_SYMTAB {
        "SHT_SYMTAB"@
    } else if code == gabi::SHT_STRTAB {
        "SHT_STRTAB"@
    } else if code == gabi::SHT_RELA {
        "SHT_RELA"@
    } else if code == gabi::SHT_HASH {
        "SHT_HASH"@
    } else if code == gabi::SHT_DYNAMIC {
        "SHT_DYNAMIC"@
    } else if code == gabi::SHT_NOTE {
        "SHT_NOTE"@
    } else if code == gabi::SHT_NOBITS {
        "SHT_NOBITS"@
    } else if code == gabi::SHT_REL {
        "SHT_REL"@
    } else if code == gabi::SHT_SHLIB {
        "SHT_SHLIB"@
    } else if code == gabi::SHT_DYNSYM {
        "SHT_DYNSYM"@
    } else if code == gabi::SHT_INIT_ARRAY {
        "SHT_INIT_ARRAY"@
    } else if code == gabi::SHT_FINI_ARRAY {
        "SHT_FINI_ARRAY"@
    } else if code == gabi::SHT_PREINIT_ARRAY {
        "SHT_PREINIT_ARRAY"@
    } else if code == gabi::SHT_GROUP {
        "SHT_GROUP"@
    } else if code == gabi::SHT_SYMTAB_SHNDX {
        "SHT_SYMTAB_SHNDX"@
    } else if code == gabi::SHT_NUM {
        "SHT_NUM"@
    } else if code == gabi::SHT_GNU_ATTRIBUTES {
        "SHT_GNU_ATTRIBUTES"@
    } else if code == gabi::SHT_GNU_HASH {
        "SHT_GNU_HASH"@
    } else if code == gabi::SHT_GNU_LIBLIST {
        "SHT_GNU_LIBLIST"@
    } else if code == gabi::SHT_GNU_VERDEF {
        "SHT_GNU_VERDEF"@
    } else if code == gabi::SHT_GNU_VERNEED {
        "SHT_GNU_VERNEED"@
    } else if code == gabi::SHT_GNU_VERSYM {
        "SHT_GNU_VERSYM"@
    } else {
        "Unknown"@
    }
}

impl SectionType {
    /// The symbolic name of this type code, per [`type_code_name`].
    pub fn display_string(&self) -> (s: String)
        ensures
            s@ == type_code_name(self.0),
    {
        let name: &'static str = if self.0 == gabi::SHT_NULL {
            "SHT_NULL"
        } else if self.0 == gabi::SHT_PROGBITS {
            "SHT_PROGBITS"
        } else if self.0 == gabi::SHT_SYMTAB {
            "SHT_SYMTAB"
        } else if self.0 == gabi::SHT_STRTAB {
            "SHT_STRTAB"
        } else if self.0 == gabi::SHT_RELA {
            "SHT_RELA"
        } else if self.0 == gabi::SHT_HASH {
            "SHT_HASH"
        } else if self.0 == gabi::SHT_DYNAMIC {
            "SHT_DYNAMIC"
        } else if self.0 == gabi::SHT_NOTE {
            "SHT_NOTE"
        } else if self.0 == gabi::SHT_NOBITS {
            "SHT_NOBITS"
        } else if self.0 == gabi::SHT_REL {
            "SHT_REL"
        } else if self.0 == gabi::SHT_SHLIB {
            "SHT_SHLIB"
        } else if self.0 == gabi::SHT_DYNSYM {
            "SHT_DYNSYM"
        } else if self.0 == gabi::SHT_INIT_ARRAY {
            "SHT_INIT_ARRAY"
        } else if self.0 == gabi::SHT_FINI_ARRAY {
            "SHT_FINI_ARRAY"
        } else if self.0 == gabi::SHT_PREINIT_ARRAY {
            "SHT_PREINIT_ARRAY"
        } else if self.0 == gabi::SHT_GROUP {
            "SHT_GROUP"
        } else if self.0 == gabi::SHT_SYMTAB_SHNDX {
            "SHT_SYMTAB_SHNDX"
        } else if self.0 == gabi::SHT_NUM {
            "SHT_NUM"
        } else if self.0 == gabi::SHT_GNU_ATTRIBUTES {
            "SHT_GNU_ATTRIBUTES"
        } else if self.0 == gabi::SHT_GNU_HASH {
            "SHT_GNU_HASH"
        } else if self.0 == gabi::SHT_GNU_LIBLIST {
            "SHT_GNU_LIBLIST"
        } else if self.0 == gabi::SHT_GNU_VERDEF {
            "SHT_GNU_VERDEF"
        } else if self.0 == gabi::SHT_GNU_VERNEED {
            "SHT_GNU_VERNEED"
        } else if self.0 == gabi::SHT_GNU_VERSYM {
            "SHT_GNU_VERSYM"
        } else {
            "Unknown"
        };
        name.to_owned()
    }
}

impl PartialEq<u32> for SectionType {
    /// A type code equals a raw integer code exactly when the wrapped
    /// value does: callers branch on section kind this way without
    /// importing symbolic constants.
    fn eq(&self, other: &u32) -> (r: bool) {
        self.0 == *other
    }
}

impl vstd::std_specs::cmp::PartialEqSpecImpl<u32> for SectionType {
    open spec fn obeys_eq_spec() -> bool {
        true
    }

    open spec fn eq_spec(&self, other: &u32) -> bool {
        self.0 == *other
    }
}

impl PartialEq<SectionType> for u32 {
    /// The mirror direction of the code comparison, so the equality holds
    /// both ways round.
    fn eq(&self, other: &SectionType) -> (r: bool) {
        *self == other.0
    }
}

impl vstd::std_specs::cmp::PartialEqSpecImpl<SectionType> for u32 {
    open spec fn obeys_eq_spec() -> bool {
        true
    }

    open spec fn eq_spec(&self, other: &SectionType) -> bool {
        *self == other.0
    }
}

/// The lowercase hexadecimal digit for a value below sixteen.
pub open spec fn hex_char_of(d: int) -> char {
    if d == 0 {
        '0'
    } else if d == 1 {
        '1'
    } else if d == 2 {
        '2'
    } else if d == 3 {
        '3'
    } else if d == 4 {
        '4'
    } else if d == 5 {
        '5'
    } else if d == 6 {
        '6'
    } else if d == 7 {
        '7'
    } else if d == 8 {
        '8'
    } else if d == 9 {
        '9'
    } else if d == 10 {
        'a'
    } else if d == 11 {
        'b'
    } else if d == 12 {
        'c'
    } else if d == 13 {
        'd'
    } else if d == 14 {
        'e'
    } else {
        'f'
    }
}

/// The lowercase hexadecimal digits of `v`, most significant first, with
/// no leading zero except for the value zero itself.
pub open spec fn hex_digits(v: int) -> Seq<char>
    decreases v,
{
    if v < 16 {
        seq![hex_char_of(v)]
    } else {
        hex_digits(v / 16).push(hex_char_of(v % 16))
    }
}

/// The display form of a flags value: a fixed `0x` prefix followed by the
/// lowercase hexadecimal digits of the stored 64-bit value.
pub open spec fn flag_display(v: u64) -> Seq<char> {
    seq!['0', 'x'] + hex_digits(v as int)
}

fn hex_digit_str(d: u64) -> (s: &'static str)
    requires
        d < 16,
    ensures
        s@ == seq![hex_char_of(d as int)],
{
    proof {
        reveal_strlit("0");
        reveal_strlit("1");
        reveal_strlit("2");
        reveal_strlit("3");
        reveal_strlit("4");
        reveal_strlit("5");
        reveal_strlit("6");
        reveal_strlit("7");
        reveal_strlit("8");
        reveal_strlit("9");
        reveal_strlit("a");
        reveal_strlit("b");
        reveal_strlit("c");
        reveal_strlit("d");
        reveal_strlit("e");
        reveal_strlit("f");
    }
    let s: &'static str = if d == 0 {
        "0"
    } else if d == 1 {
        "1"
    } else if d == 2 {
        "2"
    } else if d == 3 {
        "3"
    } else if d == 4 {
        "4"
    } else if d == 5 {
        "5"
    } else if d == 6 {
        "6"
    } else if d == 7 {
        "7"
    } else if d == 8 {
        "8"
    } else if d == 9 {
        "9"
    } else if d == 10 {
        "a"
    } else if d == 11 {
        "b"
    } else if d == 12 {
        "c"
    } else if d == 13 {
        "d"
    } else if d == 14 {
        "e"
    } else {
        "f"
    };
    proof {
        assert(s@ =~= seq![hex_char_of(d as int)]);
    }
    s
}

fn hex_string_digits(v: u64) -> (s: String)
    ensures
        s@ == hex_digits(v as int),
    decreases v,
{
    if v < 16 {
        let s = hex_digit_str(v).to_owned();
        proof {
            assert(s@ =~= hex_digits(v as int));
        }
        s
    } else {
        let mut s = hex_string_digits(v / 16);
        s.append(hex_digit_str(v % 16));
        proof {
            assert(s@ =~= hex_digits(v as int));
        }
        s
    }
}

impl SectionFlag {
    /// The raw 64-bit flags value as lowercase hexadecimal text with a
    /// fixed `0x` prefix, per [`flag_display`] — the same text whether the
    /// value came from a 32-bit or a 64-bit on-disk field.
    pub fn display_string(&self) -> (s: String)
        ensures
            s@ == flag_display(self.0),
    {
        let mut s = "0x".to_owned();
        let digits = hex_string_digits(self.0);
        s.append(digits.as_str());
        proof {
            reveal_strlit("0x");
            assert(s@ =~= flag_display(self.0));
        }
        s
    }
}

/// How many whole records of `size` bytes fit in `rem` remaining bytes.
pub open spec fn records_in(rem: int, size: int) -> int
    decreases rem,
{
    if size <= 0 || rem < size {
        0
    } else {
        1 + records_in(rem - size, size)
    }
}

proof fn lemma_records_in_nonneg(rem: int, size: int)
    ensures
        records_in(rem, size) >= 0,
    decreases rem,
{
    if !(size <= 0 || rem < size) {
        lemma_records_in_nonneg(rem - size, size);
    }
}

/// In `n` whole records and `t` stray bytes there are exactly `n` whole
/// records.
proof fn lemma_records_in_exact(rem: int, size: int, n: int, t: int)
    requires
        rem == n * size + t,
        0 <= t < size,
        0 <= n,
    ensures
        records_in(rem, size) == n,
    decreases n,
{
    if n == 0 {
        assert(n * size == 0) by (nonlinear_arith)
            requires
                n == 0,
        ;
        assert(rem == t);
    } else {
        assert(n * size - size == (n - 1) * size) by (nonlinear_arith);
        assert((n - 1) * size >= 0) by (nonlinear_arith)
            requires
                n >= 1,
                size > 0,
        ;
        assert(rem >= size);
        lemma_records_in_exact(rem - size, size, n - 1, t);
    }
}

/// A lazy, finite, forward-only producer of the records of one
/// section-header table: it decodes a whole record at each step and strides
/// the cursor by the class's fixed record length, until fewer bytes remain
/// than one whole record. It borrows the buffer and is not rewindable.
pub struct SectionHeaderIterator<'data> {
    /// Byte order of every record of the table.
    pub endian: Endian,
    /// Addressing class of every record of the table.
    pub class: Class,
    /// The backing buffer, held read-only and non-exclusively.
    pub data: &'data [u8],
    /// Byte offset of the next record to produce.
    pub offset: usize,
}

impl<'data> SectionHeaderIterator<'data> {
    /// How many whole records the producer has left.
    pub open spec fn records_remaining(self) -> int {
        records_in(self.data@.len() - self.offset, shdr_size(self.class))
    }

    /// A fresh producer over `data`, positioned at its start.
    pub fn new(endian: Endian, class: Class, data: &'data [u8]) -> (it: Self)
        ensures
            it.endian == endian,
            it.class == class,
            it.data@ == data@,
            it.offset == 0,
    {
        SectionHeaderIterator { endian, class, data, offset: 0 }
    }

    /// Produces the record at the cursor and strides the cursor by one
    /// whole record length, or ends cleanly — with no error, whatever
    /// nonzero tail of stray bytes remains — as soon as fewer bytes than
    /// one whole record are left. Yields `Some` exactly as often as whole
    /// records fit in the buffer.
    pub fn next(&mut self) -> (r: Option<SectionHeader>)
        ensures
            final(self).endian == old(self).endian,
            final(self).class == old(self).class,
            final(self).data@ == old(self).data@,
            old(self).offset + shdr_size(old(self).class) <= old(self).data@.len() ==> r
                == Some(
                spec_shdr(
                    old(self).endian,
                    old(self).class,
                    old(self).data@,
                    old(self).offset as int,
                ),
            ) && final(self).offset == old(self).offset + shdr_size(old(self).class),
            old(self).offset + shdr_size(old(self).class) > old(self).data@.len() ==> r
                is None && final(self).offset == old(self).offset,
            r is Some <==> old(self).records_remaining() > 0,
            r is Some ==> final(self).records_remaining() == old(self).records_remaining()
                - 1,
            r is None ==> old(self).records_remaining() == 0
                && final(self).records_remaining() == 0,
    {
        proof {
            lemma_shdr_sizes();
            lemma_records_in_nonneg(
                self.data@.len() - self.offset - shdr_size(self.class),
                shdr_size(self.class),
            );
        }
        let size = shdr_size_of(self.class);
        let len = self.data.len();
        if len < size || self.offset > len - size {
            return None;
        }
        let mut cur = self.offset;
        let r = SectionHeader::parse_at(self.endian, self.class, &mut cur, self.data);
        self.offset = self.offset + size;
        match r {
            Ok(hdr) => Some(hdr),
            Err(_) => vstd::pervasive::unreached(),
        }
    }
}

/// A sequence freshly constructed over a buffer that holds `n` whole
/// records and `t` stray trailing bytes produces exactly `n` records:
/// its step yields `Some` while records remain and `None` after, so the
/// stray tail ends it cleanly instead of failing.
pub proof fn lemma_fresh_record_count(it: SectionHeaderIterator, n: int, t: int)
    requires
        it.offset == 0,
        it.data@.len() == n * shdr_size(it.class) + t,
        0 <= t < shdr_size(it.class),
        0 <= n,
    ensures
        it.records_remaining() == n,
{
    lemma_records_in_exact(it.data@.len() as int, shdr_size(it.class), n, t);
}

} // verus!
