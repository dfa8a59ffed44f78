//! Section type codes named by the generic object-file format and its
//! common vendor extensions.

use vstd::prelude::*;

verus! {

/// Inactive section; holds no data.
pub const SHT_NULL: u32 = 0;

/// Program-defined contents.
pub const SHT_PROGBITS: u32 = 1;

/// Symbol table.
pub const SHT_SYMTAB: u32 = 2;

/// String table.
pub const SHT_STRTAB: u32 = 3;

/// Relocation entries with explicit addends.
pub const SHT_RELA: u32 = 4;

/// Symbol hash table.
pub const SHT_HASH: u32 = 5;

/// Dynamic linking information.
pub const SHT_DYNAMIC: u32 = 6;

/// Note section.
pub const SHT_NOTE: u32 = 7;

/// Occupies no file space but resembles program-defined contents.
pub const SHT_NOBITS: u32 = 8;

/// Relocation entries without explicit addends.
pub const SHT_REL: u32 = 9;

/// Reserved.
pub const SHT_SHLIB: u32 = 10;

/// Dynamic linker symbol table.
pub const SHT_DYNSYM: u32 = 11;

/// Array of initialization functions.
pub const SHT_INIT_ARRAY: u32 = 14;

/// Array of termination functions.
pub const SHT_FINI_ARRAY: u32 = 15;

/// Array of pre-initialization functions.
pub const SHT_PREINIT_ARRAY: u32 = 16;

/// Section group.
pub const SHT_GROUP: u32 = 17;

/// Extended section indices for a symbol table.
pub const SHT_SYMTAB_SHNDX: u32 = 18;

/// Number of defined standard types.
pub const SHT_NUM: u32 = 19;

/// Object attributes.
pub const SHT_GNU_ATTRIBUTES: u32 = 0x6ffffff5;

/// GNU-style symbol hash table.
pub const SHT_GNU_HASH: u32 = 0x6ffffff6;

/// Prelink library list.
pub const SHT_GNU_LIBLIST: u32 = 0x6ffffff7;

/// Version definition section.
pub const SHT_GNU_VERDEF: u32 = 0x6ffffffd;

/// Version needs section.
pub const SHT_GNU_VERNEED: u32 = 0x6ffffffe;

/// Version symbol table.
pub const SHT_GNU_VERSYM: u32 = 0x6fffffff;

} // verus!
