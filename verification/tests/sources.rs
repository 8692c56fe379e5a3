use btf2json::btf::Btf;
use btf2json::btf::BtfError;
use btf2json::btf::Endian;
use btf2json::btf::EnumValue;
use btf2json::btf::Id;
use btf2json::btf::Node;
use btf2json::cli::Architecture;
use btf2json::cli::Cli;
use btf2json::elf::extract_btfsec;
use btf2json::elf::find_banner;
use btf2json::elf::get_banner;
use btf2json::elf::is_elf;
use btf2json::elf::ElfError;
use btf2json::elf::ElfInfo;
use btf2json::elf::ElfSymbol;
use btf2json::elf::Section;
use btf2json::isf::Isf;
use btf2json::metadata::CompMeta;
use btf2json::metadata::SourceKind;
use btf2json::parse::get_btf_section;
use btf2json::parse::read_section;
use btf2json::symbols::parse_system_map;
use btf2json::symbols::Banner;
use btf2json::symbols::SymDb;
use btf2json::symbols::SymbolKind;
use btf2json::symbols::SymbolScope;
use btf2json::symbols::SymbolsBuilder;
use btf2json::symbols::SymbolsError;
use btf2json::symbols::TextFile;
use btf2json::v_types::TypeDescr;
use btf2json::BinaryFile;
use btf2json::GatherError;
use btf2json::GenerationContext;
use btf2json::Sources;

fn words(out: &mut Vec<u8>, ws: &[u32]) {
    for w in ws {
        out.extend_from_slice(&w.to_le_bytes());
    }
}

const STRINGS: &[u8] = b"\0int\0foo\0a\0b\0foo_t\0color\0RED\0";

fn type_section() -> Vec<u8> {
    let mut t = Vec::new();
    words(&mut t, &[1, 1 << 24, 4, 32]);
    words(&mut t, &[0, 2 << 24, 3]);
    words(&mut t, &[5, (1 << 31) | (4 << 24) | 2, 8, 9, 1, 0, 11, 1, (3 << 24) | 34]);
    words(&mut t, &[13, 8 << 24, 3]);
    words(&mut t, &[19, (6 << 24) | 1, 4, 25, 7]);
    words(&mut t, &[0, 10 << 24, 1]);
    words(&mut t, &[0, 3 << 24, 0, 1, 1, 5]);
    words(&mut t, &[5, (1 << 31) | (7 << 24), 0]);
    words(&mut t, &[0, 13 << 24, 0]);
    words(&mut t, &[19, (19 << 24) | 1, 8, 25, 0xffff_ffff, 1]);
    words(&mut t, &[9, 16 << 24, 8]);
    words(&mut t, &[0, 9 << 24, 6]);
    words(&mut t, &[0, 11 << 24, 2]);
    words(&mut t, &[9, 12 << 24, 9]);
    words(&mut t, &[11, 14 << 24, 1, 1]);
    words(&mut t, &[5, (15 << 24) | 1, 4, 15, 0, 4]);
    words(&mut t, &[25, 17 << 24, 3, 0xffff_ffff]);
    words(&mut t, &[25, 18 << 24, 1]);
    let mut out = vec![0x9f, 0xeb, 1, 0];
    words(&mut out, &[24, 0, t.len() as u32, t.len() as u32, STRINGS.len() as u32]);
    out.extend_from_slice(&t);
    out.extend_from_slice(STRINGS);
    out
}

const BANNER: &str = "Linux version 6.1.0 (test)\n";

fn section_header(out: &mut Vec<u8>, name: u32, kind: u32, addr: u64, offset: u64, size: u64, link: u32, entsize: u64) {
    out.extend_from_slice(&name.to_le_bytes());
    out.extend_from_slice(&kind.to_le_bytes());
    out.extend_from_slice(&0u64.to_le_bytes());
    out.extend_from_slice(&addr.to_le_bytes());
    out.extend_from_slice(&offset.to_le_bytes());
    out.extend_from_slice(&size.to_le_bytes());
    out.extend_from_slice(&link.to_le_bytes());
    out.extend_from_slice(&0u32.to_le_bytes());
    out.extend_from_slice(&1u64.to_le_bytes());
    out.extend_from_slice(&entsize.to_le_bytes());
}

fn elf_file(with_btf: bool, banner_name: &[u8], banner_size: u64) -> Vec<u8> {
    let shstr: &[u8] = if with_btf {
        b"\0.shstrtab\0.BTF\0.rodata\0.symtab\0.strtab\0"
    } else {
        b"\0.shstrtab\0.XTF\0.rodata\0.symtab\0.strtab\0"
    };
    let btf = type_section();
    let mut strtab = vec![0u8];
    strtab.extend_from_slice(banner_name);
    strtab.push(0);
    let mut symtab = vec![0u8; 24];
    symtab.extend_from_slice(&1u32.to_le_bytes());
    symtab.push(0x11);
    symtab.push(0);
    symtab.extend_from_slice(&3u16.to_le_bytes());
    symtab.extend_from_slice(&0x2004u64.to_le_bytes());
    symtab.extend_from_slice(&banner_size.to_le_bytes());
    let mut rodata = b"pad:".to_vec();
    rodata.extend_from_slice(BANNER.as_bytes());
    let mut body = Vec::new();
    let mut offsets = Vec::new();
    for part in [shstr, &btf[..], &rodata[..], &symtab[..], &strtab[..]] {
        offsets.push((64 + body.len() as u64, part.len() as u64));
        body.extend_from_slice(part);
    }
    let shoff = 64 + body.len() as u64;
    let mut out = vec![0x7f, 0x45, 0x4c, 0x46, 2, 1, 1, 0, 0, 0, 0, 0, 0, 0, 0, 0];
    out.extend_from_slice(&2u16.to_le_bytes());
    out.extend_from_slice(&0x3eu16.to_le_bytes());
    out.extend_from_slice(&1u32.to_le_bytes());
    out.extend_from_slice(&0u64.to_le_bytes());
    out.extend_from_slice(&0u64.to_le_bytes());
    out.extend_from_slice(&shoff.to_le_bytes());
    out.extend_from_slice(&0u32.to_le_bytes());
    out.extend_from_slice(&64u16.to_le_bytes());
    out.extend_from_slice(&56u16.to_le_bytes());
    out.extend_from_slice(&0u16.to_le_bytes());
    out.extend_from_slice(&64u16.to_le_bytes());
    out.extend_from_slice(&6u16.to_le_bytes());
    out.extend_from_slice(&1u16.to_le_bytes());
    out.extend_from_slice(&body);
    section_header(&mut out, 0, 0, 0, 0, 0, 0, 0);
    section_header(&mut out, 1, 3, 0, offsets[0].0, offsets[0].1, 0, 0);
    section_header(&mut out, 11, 1, 0, offsets[1].0, offsets[1].1, 0, 0);
    section_header(&mut out, 16, 1, 0x2000, offsets[2].0, offsets[2].1, 0, 0);
    section_header(&mut out, 24, 2, 0, offsets[3].0, offsets[3].1, 5, 24);
    section_header(&mut out, 32, 3, 0, offsets[4].0, offsets[4].1, 0, 0);
    out
}

fn good_elf() -> Vec<u8> {
    elf_file(true, b"linux_banner", BANNER.len() as u64)
}

fn lines(text: &[&str]) -> Vec<String> {
    text.iter().map(|s| s.to_string()).collect()
}

fn cli() -> Cli {
    Cli {
        btf: None,
        map: None,
        banner: None,
        version: false,
        verbose: false,
        debug: false,
        arch: Architecture::X86_64,
        image: None,
    }
}

fn map_file(text: &[&str]) -> TextFile {
    TextFile { name: "System.map".to_string(), raw: text.join("\n").into_bytes(), lines: lines(text) }
}

fn symdb_file(text: &[&str]) -> TextFile {
    TextFile { name: "dummy.symdb".to_string(), raw: text.join("\n").into_bytes(), lines: lines(text) }
}

#[test]
fn a_standalone_section_is_told_by_its_first_two_bytes() {
    let le = [0x9f, 0xeb, 1, 2, 3];
    assert_eq!(get_btf_section(&le), Ok((Endian::Little, &le[..])));
    let be = [0xeb, 0x9f, 9];
    assert_eq!(get_btf_section(&be), Ok((Endian::Big, &be[..])));
    assert_eq!(get_btf_section(&[0x9f, 0xec, 0, 0, 0, 0]), Err(BtfError::UnknownFormat));
    assert_eq!(get_btf_section(&[0x12, 0x34, 0x56, 0x78]), Err(BtfError::UnknownFormat));
    assert_eq!(get_btf_section(&[0x9f]), Err(BtfError::UnknownFormat));
    assert_eq!(get_btf_section(&[]), Err(BtfError::UnknownFormat));
}

#[test]
fn an_elf_file_is_told_by_its_first_four_bytes() {
    assert_eq!(is_elf(&[0x7f, 0x45, 0x4c, 0x46, 0]), Ok(Endian::Little));
    assert_eq!(is_elf(&[0x46, 0x4c, 0x45, 0x7f]), Ok(Endian::Big));
    assert_eq!(is_elf(&[0x7f, 0x45, 0x4c]), Err(ElfError::NotElf));
    assert_eq!(is_elf(&[0x7f, 0x45, 0x4c, 0x47]), Err(ElfError::NotElf));
    assert_eq!(is_elf(&[]), Err(ElfError::NotElf));
}

#[test]
fn the_type_section_of_an_elf_file() {
    let elf = good_elf();
    assert_eq!(extract_btfsec(&elf), Ok(&type_section()[..]));
    let (endian, sec) = get_btf_section(&elf).unwrap();
    assert_eq!(endian, Endian::Little);
    assert_eq!(sec, &type_section()[..]);
    let without = elf_file(false, b"linux_banner", 4);
    assert_eq!(extract_btfsec(&without), Err(ElfError::NoBtfSection));
    assert_eq!(get_btf_section(&without), Err(BtfError::MissingSection));
    let broken = [0x7f, 0x45, 0x4c, 0x46, 9, 9, 9, 9];
    assert_eq!(extract_btfsec(&broken), Err(ElfError::Malformed));
    assert_eq!(get_btf_section(&broken), Err(BtfError::InvalidElf));
}

#[test]
fn what_goblin_reads_of_an_elf_file() {
    let elf = good_elf();
    let info = ElfInfo::read(&elf).unwrap();
    let names: Vec<Option<&str>> = info.sections.iter().map(|s| s.name.as_deref()).collect();
    assert_eq!(
        names,
        vec![Some(""), Some(".shstrtab"), Some(".BTF"), Some(".rodata"), Some(".symtab"), Some(".strtab")]
    );
    assert_eq!(info.sections[3].addr, 0x2000);
    assert_eq!(info.sections[2].size, type_section().len() as u64);
    assert_eq!(info.sections[2].offset, 64 + 40);
    assert_eq!(info.symbols.len(), 2);
    assert_eq!(info.symbols[1].name.as_deref(), Some("linux_banner"));
    assert_eq!(info.symbols[1].section, 3);
    assert_eq!(info.symbols[1].value, 0x2004);
    assert_eq!(info.symbols[1].size, BANNER.len() as u64);
}

#[test]
fn the_banner_of_an_elf_file() {
    let elf = good_elf();
    assert_eq!(get_banner(&elf), Ok(BANNER.to_string()));
    assert_eq!(find_banner(&elf), Some(BANNER.to_string()));
    assert_eq!(get_banner(&elf_file(true, b"linux_bannex", 4)), Err(ElfError::NoBanner));
    assert_eq!(get_banner(&elf_file(true, b"linux_banner", 4000)), Err(ElfError::OutOfBounds));
    assert_eq!(find_banner(&type_section()), None);
    assert_eq!(get_banner(&[1, 2, 3]), Err(ElfError::Malformed));
}

#[test]
fn the_banner_in_sections_given_as_values() {
    let raw = b"....hello\xff...".to_vec();
    let sec = |name: &str, addr: u64, offset: u64| Section { name: Some(name.to_string()), addr, offset, size: 32 };
    let symbol = |name: &str, section: usize, value: u64, size: u64| ElfSymbol {
        name: Some(name.to_string()),
        section,
        value,
        size,
    };
    let info = |s: ElfSymbol| ElfInfo {
        sections: vec![sec("", 0, 0), sec(".rodata", 0x100, 2)],
        symbols: vec![symbol("other", 1, 0x100, 1), s, symbol("linux_banner", 1, 0x100, 1)],
    };
    assert_eq!(info(symbol("linux_banner", 1, 0x102, 5)).banner(&raw), Ok("hello".to_string()));
    assert_eq!(info(symbol("linux_banner", 1, 0x102, 0)).banner(&raw), Ok(String::new()));
    assert_eq!(info(symbol("linux_banner", 1, 0x102, 6)).banner(&raw), Err(ElfError::BannerNotText));
    assert_eq!(info(symbol("linux_banner", 2, 0x102, 5)).banner(&raw), Err(ElfError::BannerSection));
    assert_eq!(info(symbol("linux_banner", 1, 0xff, 5)).banner(&raw), Err(ElfError::OutOfBounds));
    assert_eq!(info(symbol("linux_banner", 1, 0x102, 11)).banner(&raw), Err(ElfError::OutOfBounds));
    assert_eq!(info(symbol("linux_banner", 1, u64::MAX, 5)).banner(&raw), Err(ElfError::OutOfBounds));
    assert_eq!(info(symbol("linux_banner", 1, 0x102, u64::MAX)).banner(&raw), Err(ElfError::OutOfBounds));
    assert_eq!(info(symbol("linux", 1, 0x102, 5)).banner(&raw), Ok(".".to_string()));
    let none = ElfInfo { sections: vec![], symbols: vec![symbol("x", 0, 0, 0)] };
    assert_eq!(none.banner(&raw), Err(ElfError::NoBanner));
}

#[test]
fn the_first_section_of_the_name_is_taken() {
    let sec = |name: Option<&str>, offset: u64, size: u64| Section { name: name.map(|s| s.to_string()), addr: 0, offset, size };
    let info = ElfInfo {
        sections: vec![sec(None, 0, 0), sec(Some(".BT"), 1, 1), sec(Some(".BTF"), 10, 5), sec(Some(".BTF"), 20, 5)],
        symbols: vec![],
    };
    assert_eq!(info.btf_section(15), Ok((10, 15)));
    assert_eq!(info.btf_section(100), Ok((10, 15)));
    assert_eq!(info.btf_section(14), Err(ElfError::OutOfBounds));
    let far = ElfInfo { sections: vec![sec(Some(".BTF"), u64::MAX, 2)], symbols: vec![] };
    assert_eq!(far.btf_section(100), Err(ElfError::OutOfBounds));
    let none = ElfInfo { sections: vec![sec(Some(".btf"), 0, 0)], symbols: vec![] };
    assert_eq!(none.btf_section(100), Err(ElfError::NoBtfSection));
}

#[test]
fn the_nodes_of_a_parsed_section() {
    let nodes = read_section(&type_section()).unwrap();
    let kinds: Vec<Node> = nodes.iter().map(|e| e.t.t).collect();
    assert_eq!(
        kinds,
        vec![
            Node::Void,
            Node::Int { size: 4, signed: false, is_char: false, is_bool: false },
            Node::Ptr { target: 3 },
            Node::Struct { size: 8 },
            Node::Typedef { target: 3 },
            Node::Enum { size: 4, signed: false },
            Node::Const { target: 1 },
            Node::Array { elem: 1, len: 5 },
            Node::Fwd { is_union: true },
            Node::FuncProto,
            Node::Enum64 { size: 8, signed: false },
            Node::Float { size: 8 },
            Node::Volatile { target: 6 },
            Node::Restrict { target: 2 },
            Node::Func { target: 9 },
            Node::Var { target: 1 },
            Node::Datasec,
            Node::DeclTag { target: 3 },
            Node::TypeTag { target: 1 },
        ]
    );
    let names: Vec<&str> = nodes.iter().map(|e| e.name.as_str()).collect();
    assert_eq!(
        names,
        vec!["", "int", "", "foo", "foo_t", "color", "", "", "foo", "", "color", "a", "", "", "a", "b", "foo", "RED", "RED"]
    );
    let s = &nodes[3];
    assert_eq!(s.members.len(), 2);
    let a = &s.members[0];
    assert_eq!((a.name.as_str(), a.name_off, a.type_id, a.bit_offset, a.bitfield_size, a.idx), ("a", 9, 1, 0, Some(0), 0));
    let b = &s.members[1];
    assert_eq!((b.name.as_str(), b.name_off, b.type_id, b.bit_offset, b.bitfield_size, b.idx), ("b", 11, 1, 34, Some(3), 1));
    assert_eq!(nodes[5].variants.len(), 1);
    assert_eq!(nodes[5].variants[0].name.as_deref(), Some("RED"));
    assert_eq!(nodes[5].variants[0].value, EnumValue(7));
    assert_eq!(nodes[10].variants[0].value, EnumValue(0x1_ffff_ffff));
    assert!(nodes[1].members.is_empty() && nodes[1].variants.is_empty());
}

#[test]
fn a_section_that_cannot_be_parsed() {
    assert_eq!(read_section(&[0x9f, 0xeb, 1, 0]).err(), Some(BtfError::InvalidSection));
    assert_eq!(read_section(&[]).err(), Some(BtfError::InvalidSection));
    let mut wrong_version = type_section();
    wrong_version[2] = 2;
    assert_eq!(read_section(&wrong_version).err(), Some(BtfError::InvalidSection));
}

#[test]
fn a_graph_from_bytes() {
    let btf = Btf::from_bytes("btf".to_string(), type_section()).unwrap();
    assert_eq!(btf.len(), 19);
    assert_eq!(btf.endian(), Endian::Little);
    assert_eq!(btf.name(), "btf");
    assert_eq!(btf.raw(), &type_section());
    assert_eq!(btf.get_strtab_entry_by_id(Id(4)), Ok("foo_t".to_string()));
    let (user, enums, base, typedefs) = btf.gen_vol_id_sets().unwrap();
    assert_eq!((user, enums, base), (vec![Id(3)], vec![Id(5), Id(10)], vec![Id(0), Id(1), Id(11)]));
    assert_eq!(btf.get_names_by_id(Id(3), Some(&typedefs)), Ok(vec!["foo".to_string(), "foo_t".to_string()]));
    let from_elf = Btf::from_bytes("vmlinux".to_string(), good_elf()).unwrap();
    assert_eq!(from_elf.len(), 19);
    assert_eq!(from_elf.raw(), &good_elf());
    assert_eq!(Btf::from_bytes(String::new(), vec![1, 2, 3]).err(), Some(BtfError::UnknownFormat));
    assert_eq!(Btf::from_bytes(String::new(), vec![0xeb, 0x9f, 3]).err(), Some(BtfError::InvalidSection));
}

fn section_of(types: &[u32], strings: &[u8]) -> Vec<u8> {
    let mut t = Vec::new();
    words(&mut t, types);
    let mut raw = vec![0x9f, 0xeb, 1, 0];
    words(&mut raw, &[24, 0, t.len() as u32, t.len() as u32, strings.len() as u32]);
    raw.extend_from_slice(&t);
    raw.extend_from_slice(strings);
    raw
}

#[test]
fn a_graph_with_a_circle_is_refused_where_a_typedef_leads_into_it() {
    let loose = section_of(&[0, 2 << 24, 2, 0, 10 << 24, 1], b"\0");
    assert_eq!(read_section(&loose).unwrap().len(), 3);
    let btf = Btf::from_bytes(String::new(), loose).unwrap();
    assert!(!btf.chain_ends(Id(1)));
    let bound = section_of(&[0, 2 << 24, 2, 1, 8 << 24, 1], b"\0t\0");
    assert_eq!(read_section(&bound).unwrap().len(), 3);
    assert_eq!(Btf::from_bytes(String::new(), bound).err(), Some(BtfError::Malformed));
}

#[test]
fn what_was_parsed_starts_with_void() {
    let empty = section_of(&[], b"\0");
    let nodes = read_section(&empty).unwrap();
    assert_eq!(nodes.len(), 1);
    assert_eq!(nodes[0].t.t, Node::Void);
    assert!(Btf::from_bytes(String::new(), empty).is_ok());
}

#[test]
fn published_addresses_are_taken_down_by_the_shift_of_stext() {
    let map = lines(&["ffffffff81000000 T _stext", "ffffffff81001000 T foo"]);
    let m = parse_system_map(&map, 0xffffffff81000000).unwrap();
    assert_eq!(m.len(), 2);
    assert_eq!(m.get("foo").unwrap().addr, 0xffffffff81001000);
    assert_eq!(m.get("_stext").unwrap().addr, 0xffffffff81000000);
    let m = parse_system_map(&map, 0).unwrap();
    assert_eq!(m.get("foo").unwrap().addr, 0x1000);
    assert_eq!(m.get("_stext").unwrap().addr, 0);
    let shifted = lines(&["ffffffff9a000000 T _stext", "ffffffff9a001000 t foo", "0000000000000010 A low"]);
    let m = parse_system_map(&shifted, 0xffffffff81000000).unwrap();
    assert_eq!(m.get("_stext").unwrap().addr, 0xffffffff81000000);
    assert_eq!(m.get("foo").unwrap().addr, 0xffffffff81001000);
    assert_eq!(m.get("low").unwrap().addr, 0x10u64.wrapping_sub(0x19000000));
}

#[test]
fn what_a_line_says_of_its_symbol() {
    let m = parse_system_map(&lines(&["10 T _stext", "+fF d data", "0 v weak", "1 B "]), 0x10).unwrap();
    let names: Vec<&str> = m.entries.iter().map(|e| e.name.as_str()).collect();
    assert_eq!(names, vec!["", "_stext", "data", "weak"]);
    let d = m.get("data").unwrap();
    assert_eq!((d.addr, d.kind, d.scope), (0xff, SymbolKind::D, SymbolScope::Local));
    assert!(d.t.is_none() && d.constant_data.is_none());
    let s = m.get("_stext").unwrap();
    assert_eq!((s.kind, s.scope), (SymbolKind::T, SymbolScope::Global));
    assert_eq!(m.get("weak").unwrap().kind, SymbolKind::V);
    let kinds: Vec<SymbolKind> = ['a', 'R', 'w', 'b']
        .iter()
        .map(|c| SymbolKind::try_from(c).unwrap())
        .collect();
    assert_eq!(kinds, vec![SymbolKind::A, SymbolKind::R, SymbolKind::W, SymbolKind::B]);
    assert_eq!(SymbolKind::try_from(&'x'), Err(SymbolsError::InvalidKind));
    assert_eq!(SymbolScope::from(&'t'), SymbolScope::Local);
    assert_eq!(SymbolScope::from(&'T'), SymbolScope::Global);
}

#[test]
fn a_name_that_several_lines_have_is_dropped() {
    let map = lines(&[
        "10 T _stext",
        "20 t twice",
        "30 t once",
        "40 t twice",
        "zz ? twice",
        "50 t twice",
    ]);
    let m = parse_system_map(&map, 0x10).unwrap();
    let names: Vec<&str> = m.entries.iter().map(|e| e.name.as_str()).collect();
    assert_eq!(names, vec!["_stext", "once"]);
    assert_eq!(m.get("once").unwrap().addr, 0x30);
}

#[test]
fn a_long_symbol_file() {
    let mut text = vec!["ffffffff81000000 T _stext".to_string()];
    let mut expected = std::collections::BTreeMap::new();
    expected.insert("_stext".to_string(), 0xffffffff81000000u64);
    for i in 0..20000u64 {
        let name = format!("sym_{}", (i * 7919) % 15013);
        let addr = 0xffffffff81000000u64 + 16 * i;
        text.push(format!("{:016x} t {}", addr, name));
        if i < 15013 && i + 15013 >= 20000 {
            expected.insert(name, addr);
        }
    }
    let m = parse_system_map(&text, 0xffffffff81000000).unwrap();
    let got: Vec<(String, u64)> = m.entries.iter().map(|e| (e.name.clone(), e.value.addr)).collect();
    let want: Vec<(String, u64)> = expected.into_iter().collect();
    assert_eq!(got.len(), 1 + 15013 - (20000 - 15013));
    assert_eq!(got, want);
}

#[test]
fn faults_of_a_symbol_file() {
    let err = |text: &[&str]| parse_system_map(&lines(text), 0).err();
    assert_eq!(err(&["10 T foo"]), Some(SymbolsError::NoStext));
    assert_eq!(err(&[]), Some(SymbolsError::NoStext));
    assert_eq!(err(&["10 T _stext", "20 T _stext"]), Some(SymbolsError::NoStext));
    assert_eq!(err(&["10 T _stext", "20 T"]), Some(SymbolsError::InvalidFormat));
    assert_eq!(err(&["10 T _stext", "20 T a b"]), Some(SymbolsError::InvalidFormat));
    assert_eq!(err(&["10 T _stext", ""]), Some(SymbolsError::InvalidFormat));
    assert_eq!(err(&["10 T _stext", "20  a"]), Some(SymbolsError::InvalidScope));
    assert_eq!(err(&["10 T _stext", "2g T a"]), Some(SymbolsError::InvalidAddress));
    assert_eq!(err(&["10 T _stext", " T a"]), Some(SymbolsError::InvalidAddress));
    assert_eq!(err(&["10 T _stext", "+ T a"]), Some(SymbolsError::InvalidAddress));
    assert_eq!(err(&["10 T _stext", "0x10 T a"]), Some(SymbolsError::InvalidAddress));
    assert_eq!(err(&["10 T _stext", "10000000000000000 T a"]), Some(SymbolsError::InvalidAddress));
    assert_eq!(err(&["10 T _stext", "20 X a"]), Some(SymbolsError::InvalidKind));
    assert_eq!(err(&["  a", "zz X b"]), Some(SymbolsError::InvalidScope));
    assert_eq!(err(&["zz X b", "  a"]), Some(SymbolsError::InvalidAddress));
    let ok = parse_system_map(&lines(&["00000000000000000ffffffffffffffff T _stext"]), 0).unwrap();
    assert_eq!(ok.get("_stext").unwrap().addr, 0);
}

#[test]
fn the_table_of_symbol_types() {
    let db = SymDb::new(&lines(&["a {\"kind\":\"function\"}", "b c d", "e "])).unwrap();
    let got: Vec<(String, String)> = db.into_iter().into_iter().map(|e| (e.name, e.value)).collect();
    assert_eq!(
        got,
        vec![
            ("a".to_string(), "{\"kind\":\"function\"}".to_string()),
            ("b".to_string(), "c d".to_string()),
            ("e".to_string(), String::new()),
        ]
    );
    assert_eq!(SymDb::new(&lines(&["a b", "nospace"])).err(), Some(SymbolsError::InvalidSymDb));
    assert_eq!(SymDb::new(&lines(&[])).unwrap().lines.len(), 0);
}

#[test]
fn the_banner_of_the_command_line_takes_precedence() {
    let elf = good_elf();
    let mut c = cli();
    c.banner = Some("given".to_string());
    assert_eq!(Banner::try_from(&c, Some(&elf)).unwrap().text(), "given");
    assert_eq!(Banner::try_from(&c, None).unwrap().0, "given");
    c.banner = None;
    assert_eq!(Banner::try_from(&c, Some(&elf)).unwrap().0, BANNER);
    assert_eq!(Banner::try_from(&c, Some(&type_section())).err(), Some(SymbolsError::NoBanner));
    assert_eq!(Banner::try_from(&c, None).err(), Some(SymbolsError::NoBanner));
    c.image = Some("mem.img".to_string());
    assert_eq!(Banner::try_from(&c, None).err(), Some(SymbolsError::ImageUnsupported));
    assert_eq!(Banner::try_from(&c, Some(&elf)).unwrap().0, BANNER);
}

#[test]
fn symbols_are_gathered_from_the_sources() {
    let mut c = cli();
    c.banner = Some("hello".to_string());
    let map = map_file(&["ffffffff81000000 T _stext", "ffffffff81000040 D linux_banner", "ffffffff81000080 d init_task", "1 t dup", "2 t dup"]);
    let db = symdb_file(&["init_task {\"kind\":\"struct\",\"name\":\"foo\"}", "absent {\"kind\":\"function\"}", "init_task {\"kind\":\"function\"}"]);
    let b = SymbolsBuilder::try_from(&c, Some(map), db, None).unwrap();
    let s = b.add_types_from_btf(&Btf::from_bytes(String::new(), type_section()).unwrap()).build();
    assert_eq!(s.base_offset, 0xffffffff81000000);
    assert_eq!(s.symbols.len(), 3);
    assert_eq!(s.with_types(), 1);
    assert_eq!(s.sym_addr_from_name("init_task"), Some(0xffffffff81000080));
    assert_eq!(s.sym_addr_from_name("dup"), None);
    assert_eq!(s.map_name(), Some("System.map".to_string()));
    assert_eq!(s.symdb_name(), Some(&"dummy.symdb".to_string()));
    assert!(s.raw_map().unwrap().starts_with(b"ffffffff81000000 T _stext\n"));
    assert!(s.raw_symdb().unwrap().starts_with(b"init_task "));
    let task = s.symbols.get("init_task").unwrap();
    assert_eq!(task.ty(), Some(&"{\"kind\":\"function\"}".to_string()));
    assert_eq!(task.address(), 0xffffffff81000080);
    let banner = s.symbols.get("linux_banner").unwrap();
    assert_eq!(banner.constant_data.as_deref(), Some("aGVsbG8="));
    assert_eq!(banner.ty(), None);
    assert_eq!(s.symbols.get("_stext").unwrap().constant_data, None);
    let mut taken = s.into_iter();
    assert_eq!(taken[2].name, "linux_banner");
    assert_eq!(taken[2].value.constant_data(), Some("aGVsbG8=".to_string()));
    assert_eq!(taken[2].value.constant_data(), None);
}

#[test]
fn why_symbols_cannot_be_gathered() {
    let mut c = cli();
    let err = |c: &Cli, map: Option<TextFile>, db: &[&str]| SymbolsBuilder::try_from(c, map, symdb_file(db), None).err();
    assert_eq!(err(&c, None, &[]), Some(SymbolsError::NoSource));
    c.image = Some("img".to_string());
    assert_eq!(err(&c, None, &[]), Some(SymbolsError::ImageUnsupported));
    assert_eq!(err(&c, Some(map_file(&["1 T a"])), &["bad"]), Some(SymbolsError::NoStext));
    assert_eq!(err(&c, Some(map_file(&["1 T _stext"])), &["bad"]), Some(SymbolsError::InvalidSymDb));
    assert_eq!(err(&c, Some(map_file(&["1 T _stext"])), &[]), Some(SymbolsError::ImageUnsupported));
    c.image = None;
    assert_eq!(err(&c, Some(map_file(&["1 T _stext"])), &[]), Some(SymbolsError::NoBanner));
    c.banner = Some("b".to_string());
    assert_eq!(err(&c, Some(map_file(&["1 T _stext"])), &[]), Some(SymbolsError::NoBannerSymbol));
    assert_eq!(
        err(&c, Some(map_file(&["1 T _stext", "2 D linux_banner", "3 D linux_banner"])), &[]),
        Some(SymbolsError::NoBannerSymbol)
    );
}

#[test]
fn base_offsets_of_the_architectures() {
    assert_eq!(Architecture::default(), Architecture::X86_64);
    assert_eq!(Architecture::X86_64.base_offset(), 0xffffffff81000000);
    assert_eq!(Architecture::Arm64.base_offset(), 0xffff800080010000);
    let mut c = cli();
    c.arch = Architecture::Arm64;
    assert_eq!(SymbolsBuilder::new().add_base_offset_from_cli(&c).build().base_offset, 0xffff800080010000);
}

#[test]
fn a_context_is_gathered_and_a_profile_is_made_of_it() {
    let c = cli();
    let sources = Sources {
        btf: Some(BinaryFile { name: "vmlinux".to_string(), raw: good_elf() }),
        map: Some(map_file(&["ffffffff81000000 T _stext", "ffffffff81000040 D linux_banner", "ffffffff81000080 d init_task", "ffffffff81000090 d lost"])),
        symdb: symdb_file(&["init_task {\"kind\":\"struct\",\"name\":\"foo_t\"}", "lost {\"kind\":\"union\",\"name\":\"foo\"}"]),
    };
    let ctx = GenerationContext::try_from(&c, sources).unwrap();
    assert_eq!(ctx.user_ids, vec![Id(3)]);
    let mut isf = Isf::try_from(ctx).unwrap();
    let banner = isf.symbols.get("linux_banner").unwrap();
    assert_eq!(banner.constant_data.as_deref(), Some("TGludXggdmVyc2lvbiA2LjEuMCAodGVzdCkK"));
    assert_eq!(banner.address, 0xffffffff81000040);
    assert_eq!(isf.symbols.get("init_task").unwrap().t, TypeDescr::Struct { name: "foo_t".to_string() });
    assert_eq!(isf.enums.get("color").unwrap().base, "pointer");
    assert_eq!(isf.enums.get("color").unwrap().size, 8);
    let report = isf.fix_symbol_types().unwrap_err();
    assert_eq!(report.fixed.len(), 1);
    assert_eq!(report.fixed[0].name, "lost");
    assert_eq!(report.missing.len(), 1);
    assert_eq!(isf.symbols.get("lost").unwrap().t, TypeDescr::new_void());
    assert!(isf.check_user_types().is_ok());
    assert_eq!(isf.metadata.linux.types[0].name, "vmlinux");
    assert_eq!(isf.metadata.linux.symbols.len(), 2);
}

#[test]
fn why_a_context_cannot_be_gathered() {
    let mut c = cli();
    let sources = |btf: Option<Vec<u8>>| Sources {
        btf: btf.map(|raw| BinaryFile { name: "f".to_string(), raw }),
        map: None,
        symdb: symdb_file(&[]),
    };
    assert_eq!(GenerationContext::try_from(&c, sources(None)).err(), Some(GatherError::NoTypeSource));
    assert_eq!(
        GenerationContext::try_from(&c, sources(Some(vec![0, 1]))).err(),
        Some(GatherError::Btf(BtfError::UnknownFormat))
    );
    assert_eq!(
        GenerationContext::try_from(&c, sources(Some(type_section()))).err(),
        Some(GatherError::Symbols(SymbolsError::NoSource))
    );
    c.image = Some("img".to_string());
    assert_eq!(GenerationContext::try_from(&c, sources(None)).err(), Some(GatherError::ImageUnsupported));
}

#[test]
fn sources_of_the_metadata() {
    assert_eq!(SourceKind::from_u32(0), SourceKind::Symdb);
    assert_eq!(SourceKind::from_u32(1), SourceKind::Btf);
    assert_eq!(SourceKind::from_u32(2), SourceKind::SystemMap);
    let m: CompMeta<Vec<u8>, String, 2> = CompMeta::new(b"hello".to_vec(), "map".to_string());
    let s = m.source();
    assert_eq!((s.kind, s.name.as_str(), s.hash_type.as_str()), (SourceKind::SystemMap, "map", "sha256"));
    assert_eq!(s.hash_value, "2cf24dba5fb0a30e26e83b2ac5b9e29e1b161e5c1fa7425e73043362938b9824");
    let none: Option<CompMeta<u8, u8, 0>> = CompMeta::try_new(Some(1), None);
    assert!(none.is_none());
    let none: Option<CompMeta<u8, u8, 0>> = CompMeta::try_new(None, Some(1));
    assert!(none.is_none());
    let some: Option<CompMeta<u8, u8, 0>> = CompMeta::try_new(Some(1), Some(2));
    assert_eq!(some.map(|m| (m.raw, m.name)), Some((1, 2)));
}
