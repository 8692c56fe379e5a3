//! Utilities for working with ELF files.

use crate::btf::Endian;
use crate::text::string_from_utf8;
use vstd::prelude::*;
use vstd::slice::slice_subrange;
use vstd::slice::slice_to_vec;
use vstd::string::*;
use vstd::utf8::decode_utf8;
use vstd::utf8::valid_utf8;

verus! {

/// Why nothing could be taken from an ELF file.
#[derive(Clone, Copy, Debug, PartialEq, Eq, Structural)]
pub enum ElfError {
    /// The buffer does not start like an ELF file.
    NotElf,
    /// The ELF file could not be parsed.
    Malformed,
    /// The ELF file has no section `.BTF`.
    NoBtfSection,
    /// What was looked for lies outside the file.
    OutOfBounds,
    /// The ELF file has no symbol `linux_banner`.
    NoBanner,
    /// The banner's symbol is in a section that the file does not have.
    BannerSection,
    /// The banner is no text.
    BannerNotText,
}

/// What an ELF file says of one of its sections.
#[derive(Debug)]
pub struct Section {
    /// The name in the table of section names, if it has one there.
    pub name: Option<String>,
    /// Address of the section in memory.
    pub addr: u64,
    /// Offset of the section in the file.
    pub offset: u64,
    pub size: u64,
}

/// What an ELF file says of one of its symbols.
#[derive(Debug)]
pub struct ElfSymbol {
    /// The name in the table of names, if it has one there.
    pub name: Option<String>,
    /// Index of the section that the symbol is in.
    pub section: usize,
    pub value: u64,
    pub size: u64,
}

/// The sections and symbols of an ELF file, in the order of the file.
#[derive(Debug)]
pub struct ElfInfo {
    pub sections: Vec<Section>,
    pub symbols: Vec<ElfSymbol>,
}

/// `goblin::elf::Elf`, a parsed ELF file. Nothing of it is seen but through
/// the functions below.
#[verifier::external_type_specification]
#[verifier::external_body]
pub struct ExElf<'a>(goblin::elf::Elf<'a>);

/// The sections and symbols that `goblin` finds in the bytes of an ELF file,
/// if it can parse them.
pub uninterp spec fn elf_layout(raw: Seq<u8>) -> Option<ElfInfo>;

/// The sections that a parsed ELF file holds, in the order of the file.
pub uninterp spec fn sections_held(e: goblin::elf::Elf) -> Seq<Section>;

/// The symbols that a parsed ELF file holds, in the order of the file.
pub uninterp spec fn symbols_held(e: goblin::elf::Elf) -> Seq<ElfSymbol>;

/// `goblin::elf::Elf::parse`: parses the bytes; what the result holds is a
/// function of the bytes.
#[verifier::external_body]
fn elf_parse<'a>(raw: &'a [u8]) -> (r: Option<goblin::elf::Elf<'a>>)
    ensures
        r is Some <==> elf_layout(raw@) is Some,
        r matches Some(e) ==> sections_held(e) == elf_layout(raw@).unwrap().sections@
            && symbols_held(e) == elf_layout(raw@).unwrap().symbols@,
{
    goblin::elf::Elf::parse(raw).ok()
}

/// Length of the field `section_headers` of a parsed ELF file.
#[verifier::external_body]
fn elf_section_count(e: &goblin::elf::Elf) -> (r: usize)
    ensures
        r == sections_held(*e).len(),
{
    e.section_headers.len()
}

/// Entry `i` of the field `section_headers`, with its name as
/// `Strtab::get_at` finds it in the field `shdr_strtab`.
#[verifier::external_body]
fn elf_section(e: &goblin::elf::Elf, i: usize) -> (r: Section)
    requires
        i < sections_held(*e).len(),
    ensures
        r == sections_held(*e)[i as int],
{
    let h = &e.section_headers[i];
    Section {
        name: e.shdr_strtab.get_at(h.sh_name).map(String::from),
        addr: h.sh_addr,
        offset: h.sh_offset,
        size: h.sh_size,
    }
}

/// `Symtab::len` of the field `syms` of a parsed ELF file.
#[verifier::external_body]
fn elf_symbol_count(e: &goblin::elf::Elf) -> (r: usize)
    ensures
        r == symbols_held(*e).len(),
{
    e.syms.len()
}

/// `Symtab::get` of the field `syms`, with the symbol's name as
/// `Strtab::get_at` finds it in the field `strtab`.
#[verifier::external_body]
fn elf_symbol(e: &goblin::elf::Elf, i: usize) -> (r: ElfSymbol)
    requires
        i < symbols_held(*e).len(),
    ensures
        r == symbols_held(*e)[i as int],
{
    let s = e.syms.get(i).unwrap_or_default();
    ElfSymbol {
        name: e.strtab.get_at(s.st_name).map(String::from),
        section: s.st_shndx,
        value: s.st_value,
        size: s.st_size,
    }
}

/// The byte order that the first four bytes of an ELF file show.
pub open spec fn elf_magic(raw: Seq<u8>) -> Option<Endian> {
    if raw.len() >= 4 && raw[0] == 0x7f && raw[1] == 0x45 && raw[2] == 0x4c && raw[3] == 0x46 {
        Some(Endian::Little)
    } else if raw.len() >= 4 && raw[0] == 0x46 && raw[1] == 0x4c && raw[2] == 0x45 && raw[3]
        == 0x7f {
        Some(Endian::Big)
    } else {
        None
    }
}

/// Determines whether buffer is an ELF file, and, if yes, its endianness.
pub fn is_elf(raw: &[u8]) -> (r: Result<Endian, ElfError>)
    ensures
        match r {
            Ok(e) => elf_magic(raw@) == Some(e),
            Err(e) => elf_magic(raw@) is None && e == ElfError::NotElf,
        },
{
    if raw.len() < 4 {
        return Err(ElfError::NotElf);
    }
    if raw[0] == 0x7f && raw[1] == 0x45 && raw[2] == 0x4c && raw[3] == 0x46 {
        Ok(Endian::Little)
    } else if raw[0] == 0x46 && raw[1] == 0x4c && raw[2] == 0x45 && raw[3] == 0x7f {
        Ok(Endian::Big)
    } else {
        Err(ElfError::NotElf)
    }
}

/// Whether `name` is the name `k`.
pub open spec fn is_named(name: Option<String>, k: Seq<char>) -> bool {
    name matches Some(s) && s@ == k
}

fn has_name(name: &Option<String>, k: &str) -> (r: bool)
    ensures
        r == is_named(*name, k@),
{
    match name {
        Some(s) => {
            proof {
                crate::names::lemma_key_order(s@, k@, s@);
            }
            !crate::names::name_less(s.as_str(), k) && !crate::names::name_less(k, s.as_str())
        },
        None => false,
    }
}

/// Whether section `i` is the first one named `.BTF`.
pub open spec fn first_btf_section(secs: Seq<Section>, i: int) -> bool {
    &&& 0 <= i < secs.len()
    &&& is_named(secs[i].name, ".BTF"@)
    &&& forall|j: int| 0 <= j < i ==> !is_named(#[trigger] secs[j].name, ".BTF"@)
}

/// Whether symbol `i` is the first one named `linux_banner`.
pub open spec fn first_banner_symbol(syms: Seq<ElfSymbol>, i: int) -> bool {
    &&& 0 <= i < syms.len()
    &&& is_named(syms[i].name, "linux_banner"@)
    &&& forall|j: int| 0 <= j < i ==> !is_named(#[trigger] syms[j].name, "linux_banner"@)
}

/// The bytes of the file that the banner's symbol `i` spans: from the file
/// offset of its section plus its distance from the section's address, for
/// its size.
pub open spec fn banner_span(info: ElfInfo, len: int, i: int) -> Result<(int, int), ElfError> {
    let sym = info.symbols@[i];
    if sym.section >= info.sections@.len() {
        Err(ElfError::BannerSection)
    } else {
        let sec = info.sections@[sym.section as int];
        let start = sec.offset + (sym.value - sec.addr);
        if sym.value < sec.addr || start + sym.size > len {
            Err(ElfError::OutOfBounds)
        } else {
            Ok((start, start + sym.size))
        }
    }
}

/// The banner that symbol `i` stands for in the file `raw`.
pub open spec fn banner_at(info: ElfInfo, raw: Seq<u8>, i: int) -> Result<Seq<char>, ElfError> {
    match banner_span(info, raw.len() as int, i) {
        Err(e) => Err(e),
        Ok((a, b)) => if valid_utf8(raw.subrange(a, b)) {
            Ok(decode_utf8(raw.subrange(a, b)))
        } else {
            Err(ElfError::BannerNotText)
        },
    }
}

impl ElfInfo {
    /// Reads the sections and symbols of an ELF file.
    pub fn read(raw: &[u8]) -> (r: Result<ElfInfo, ElfError>)
        ensures
            match r {
                Ok(info) => elf_layout(raw@) matches Some(l) && info.sections@ == l.sections@
                    && info.symbols@ == l.symbols@,
                Err(e) => elf_layout(raw@) is None && e == ElfError::Malformed,
            },
    {
        let e = match elf_parse(raw) {
            Some(e) => e,
            None => {
                return Err(ElfError::Malformed);
            },
        };
        let ghost held_sections = sections_held(e);
        let ghost held_symbols = symbols_held(e);
        let mut sections: Vec<Section> = Vec::new();
        let n = elf_section_count(&e);
        let mut i: usize = 0;
        while i < n
            invariant
                held_sections == sections_held(e),
                n == held_sections.len(),
                i <= n,
                sections@ == held_sections.take(i as int),
            decreases n - i,
        {
            sections.push(elf_section(&e, i));
            assert(sections@ =~= held_sections.take(i + 1));
            i = i + 1;
        }
        assert(held_sections.take(n as int) =~= held_sections);
        let mut symbols: Vec<ElfSymbol> = Vec::new();
        let m = elf_symbol_count(&e);
        let mut k: usize = 0;
        while k < m
            invariant
                held_symbols == symbols_held(e),
                m == held_symbols.len(),
                k <= m,
                symbols@ == held_symbols.take(k as int),
            decreases m - k,
        {
            symbols.push(elf_symbol(&e, k));
            assert(symbols@ =~= held_symbols.take(k + 1));
            k = k + 1;
        }
        assert(held_symbols.take(m as int) =~= held_symbols);
        Ok(ElfInfo { sections, symbols })
    }

    /// Where in a file of `len` bytes the first section named `.BTF` lies.
    pub fn btf_section(&self, len: usize) -> (r: Result<(usize, usize), ElfError>)
        ensures
            match r {
                Ok((a, b)) => exists|i: int| #[trigger]
                    first_btf_section(self.sections@, i) && a == self.sections@[i].offset && b == a
                        + self.sections@[i].size && b <= len,
                Err(e) => if e == ElfError::NoBtfSection {
                    forall|i: int|
                        0 <= i < self.sections@.len() ==> !is_named(
                            #[trigger] self.sections@[i].name,
                            ".BTF"@,
                        )
                } else {
                    e == ElfError::OutOfBounds && exists|i: int| #[trigger]
                        first_btf_section(self.sections@, i) && self.sections@[i].offset
                            + self.sections@[i].size > len
                },
            },
    {
        let mut i: usize = 0;
        while i < self.sections.len()
            invariant
                i <= self.sections@.len(),
                forall|j: int| 0 <= j < i ==> !is_named(#[trigger] self.sections@[j].name, ".BTF"@),
            decreases self.sections@.len() - i,
        {
            let s = &self.sections[i];
            if has_name(&s.name, ".BTF") {
                assert(first_btf_section(self.sections@, i as int));
                if s.offset > len as u64 || s.size > len as u64 - s.offset {
                    return Err(ElfError::OutOfBounds);
                }
                return Ok((s.offset as usize, (s.offset + s.size) as usize));
            }
            i = i + 1;
        }
        Err(ElfError::NoBtfSection)
    }

    /// The banner in the file `raw`: the bytes that the first symbol named
    /// `linux_banner` spans, as text.
    pub fn banner(&self, raw: &[u8]) -> (r: Result<String, ElfError>)
        ensures
            match r {
                Ok(s) => exists|i: int| #[trigger]
                    first_banner_symbol(self.symbols@, i) && banner_at(*self, raw@, i) == Ok::<
                        Seq<char>,
                        ElfError,
                    >(s@),
                Err(e) => if e == ElfError::NoBanner {
                    forall|i: int|
                        0 <= i < self.symbols@.len() ==> !is_named(
                            #[trigger] self.symbols@[i].name,
                            "linux_banner"@,
                        )
                } else {
                    exists|i: int| #[trigger]
                        first_banner_symbol(self.symbols@, i) && banner_at(*self, raw@, i) == Err::<
                            Seq<char>,
                            ElfError,
                        >(e)
                },
            },
    {
        let mut i: usize = 0;
        while i < self.symbols.len()
            invariant
                i <= self.symbols@.len(),
                forall|j: int|
                    0 <= j < i ==> !is_named(#[trigger] self.symbols@[j].name, "linux_banner"@),
            decreases self.symbols@.len() - i,
        {
            let sym = &self.symbols[i];
            if has_name(&sym.name, "linux_banner") {
                assert(first_banner_symbol(self.symbols@, i as int));
                if sym.section >= self.sections.len() {
                    return Err(ElfError::BannerSection);
                }
                let sec = &self.sections[sym.section];
                let len = raw.len() as u64;
                if sym.value < sec.addr {
                    return Err(ElfError::OutOfBounds);
                }
                let delta = sym.value - sec.addr;
                if sec.offset > len || delta > len - sec.offset {
                    return Err(ElfError::OutOfBounds);
                }
                let start = sec.offset + delta;
                if sym.size > len - start {
                    return Err(ElfError::OutOfBounds);
                }
                let end = start + sym.size;
                let bytes = slice_to_vec(slice_subrange(raw, start as usize, end as usize));
                return match string_from_utf8(bytes) {
                    Some(s) => Ok(s),
                    None => Err(ElfError::BannerNotText),
                };
            }
            i = i + 1;
        }
        Err(ElfError::NoBanner)
    }
}

/// Returns the `.BTF` section of the ELF file.
pub fn extract_btfsec(raw: &[u8]) -> (r: Result<&[u8], ElfError>)
    ensures
        match r {
            Ok(sec) => elf_layout(raw@) matches Some(l) && exists|i: int| #[trigger]
                first_btf_section(l.sections@, i) && l.sections@[i].offset + l.sections@[i].size
                    <= raw@.len() && sec@ == raw@.subrange(
                    l.sections@[i].offset as int,
                    l.sections@[i].offset + l.sections@[i].size,
                ),
            Err(e) => match elf_layout(raw@) {
                None => e == ElfError::Malformed,
                Some(l) => if e == ElfError::NoBtfSection {
                    forall|i: int|
                        0 <= i < l.sections@.len() ==> !is_named(
                            #[trigger] l.sections@[i].name,
                            ".BTF"@,
                        )
                } else {
                    e == ElfError::OutOfBounds && exists|i: int| #[trigger]
                        first_btf_section(l.sections@, i) && l.sections@[i].offset
                            + l.sections@[i].size > raw@.len()
                },
            },
        },
{
    let info = match ElfInfo::read(raw) {
        Ok(info) => info,
        Err(e) => {
            return Err(e);
        },
    };
    match info.btf_section(raw.len()) {
        Ok((a, b)) => Ok(slice_subrange(raw, a, b)),
        Err(e) => Err(e),
    }
}

/// Returns the Linux banner of the ELF file.
pub fn get_banner(raw: &[u8]) -> (r: Result<String, ElfError>)
    ensures
        match r {
            Ok(s) => elf_layout(raw@) matches Some(l) && exists|i: int| #[trigger]
                first_banner_symbol(l.symbols@, i) && banner_at(l, raw@, i) == Ok::<
                    Seq<char>,
                    ElfError,
                >(s@),
            Err(e) => match elf_layout(raw@) {
                None => e == ElfError::Malformed,
                Some(l) => if e == ElfError::NoBanner {
                    forall|i: int|
                        0 <= i < l.symbols@.len() ==> !is_named(
                            #[trigger] l.symbols@[i].name,
                            "linux_banner"@,
                        )
                } else {
                    exists|i: int| #[trigger]
                        first_banner_symbol(l.symbols@, i) && banner_at(l, raw@, i) == Err::<
                            Seq<char>,
                            ElfError,
                        >(e)
                },
            },
        },
{
    let info = match ElfInfo::read(raw) {
        Ok(info) => info,
        Err(e) => {
            return Err(e);
        },
    };
    let r = info.banner(raw);
    proof {
        let l = elf_layout(raw@).unwrap();
        assert(forall|i: int| banner_at(info, raw@, i) == banner_at(l, raw@, i));
        assert(forall|i: int|
            first_banner_symbol(info.symbols@, i) == first_banner_symbol(l.symbols@, i));
    }
    r
}


/// The banner of a buffer that is an ELF file: the text that its first
/// symbol named `linux_banner` spans, if all of that is there.
pub open spec fn elf_banner(raw: Seq<u8>) -> Option<Seq<char>> {
    if elf_magic(raw) is None {
        None
    } else {
        match elf_layout(raw) {
            None => None,
            Some(l) => if exists|i: int| #[trigger] first_banner_symbol(l.symbols@, i) {
                match banner_at(
                    l,
                    raw,
                    choose|i: int| #[trigger] first_banner_symbol(l.symbols@, i),
                ) {
                    Ok(s) => Some(s),
                    Err(_) => None,
                }
            } else {
                None
            },
        }
    }
}

proof fn lemma_first_banner(syms: Seq<ElfSymbol>, i: int)
    requires
        first_banner_symbol(syms, i),
    ensures
        (choose|j: int| #[trigger] first_banner_symbol(syms, j)) == i,
{
    let j = choose|j: int| #[trigger] first_banner_symbol(syms, j);
    if j < i {
        assert(!is_named(syms[j].name, "linux_banner"@));
    } else if i < j {
        assert(!is_named(syms[i].name, "linux_banner"@));
    }
}

/// Looks for the banner in a buffer that may be an ELF file.
pub fn find_banner(raw: &[u8]) -> (r: Option<String>)
    ensures
        match r {
            Some(s) => elf_banner(raw@) == Some(s@),
            None => elf_banner(raw@) is None,
        },
{
    if is_elf(raw).is_err() {
        return None;
    }
    match get_banner(raw) {
        Ok(s) => {
            proof {
                let l = elf_layout(raw@).unwrap();
                let i = choose|i: int| #[trigger]
                    first_banner_symbol(l.symbols@, i) && banner_at(l, raw@, i) == Ok::<
                        Seq<char>,
                        ElfError,
                    >(s@);
                lemma_first_banner(l.symbols@, i);
            }
            Some(s)
        },
        Err(e) => {
            proof {
                if elf_layout(raw@) is Some {
                    let l = elf_layout(raw@).unwrap();
                    if e != ElfError::NoBanner {
                        let i = choose|i: int| #[trigger]
                            first_banner_symbol(l.symbols@, i) && banner_at(l, raw@, i) == Err::<
                                Seq<char>,
                                ElfError,
                            >(e);
                        lemma_first_banner(l.symbols@, i);
                    }
                }
            }
            None
        },
    }
}

} // verus!
