//! Reading a type section: `btf_rs` parses the bytes, and what it holds is
//! taken over node by node into a graph of plain values.

use crate::btf::graph_wf;
use crate::btf::lemma_same_wf;
use crate::btf::Btf;
use crate::btf::BtfError;
use crate::btf::Endian;
use crate::btf::same_graph;
use crate::btf::mirrors;
use crate::btf::Entry;
use crate::btf::EnumValue;
use crate::btf::Member;
use crate::btf::Node;
use crate::btf::Type;
use crate::btf::Variant;
use crate::elf::extract_btfsec;
use crate::elf::is_elf;
use crate::elf::ElfError;
use crate::names::name_eq;
use vstd::prelude::*;
use vstd::string::*;

verus! {

/// A type section as `btf_rs::Btf` holds it once it has parsed it. Nothing of
/// it is seen but through the functions below; what they say of it is
/// believed.
#[verifier::external_body]
pub struct ParsedSection {
    inner: btf_rs::Btf,
}

/// The nodes that `btf_rs` finds in the bytes of a type section, if it can
/// parse them; the node with id `i` at position `i`.
pub uninterp spec fn btf_layout(raw: Seq<u8>) -> Option<Seq<Entry>>;

/// The nodes that a parsed type section holds; the node with id `i` at
/// position `i`.
pub uninterp spec fn btf_held(b: ParsedSection) -> Seq<Entry>;

/// Signedness as the node itself declares it.
pub open spec fn declared_sign(n: Node) -> Option<bool> {
    match n {
        Node::Int { signed, .. } => Some(signed),
        Node::Enum { signed, .. } => Some(signed),
        Node::Enum64 { signed, .. } => Some(signed),
        _ => None,
    }
}

/// Whether an integer node is a character, and whether it is a boolean.
pub open spec fn int_flags(n: Node) -> (bool, bool) {
    match n {
        Node::Int { is_char, is_bool, .. } => (is_char, is_bool),
        _ => (false, false),
    }
}

/// Whether a forward declaration declares a union.
pub open spec fn fwd_union(n: Node) -> bool {
    match n {
        Node::Fwd { is_union } => is_union,
        _ => false,
    }
}

/// Number of elements of an array node.
pub open spec fn array_len(n: Node) -> usize {
    match n {
        Node::Array { len, .. } => len,
        _ => 0,
    }
}

/// `btf_rs::Btf::from_bytes`: parses a type section; what the result holds
/// is a function of the bytes.
#[verifier::external_body]
fn raw_parse(raw: &[u8]) -> (r: Option<ParsedSection>)
    ensures
        r is Some <==> btf_layout(raw@) is Some,
        r matches Some(b) ==> btf_held(b) == btf_layout(raw@).unwrap(),
{
    btf_rs::Btf::from_bytes(raw).ok().map(|inner| ParsedSection { inner })
}

/// `btf_rs::Btf::resolve_type_by_id` succeeds for the ids from 0 up to the
/// number of nodes, and for no other.
#[verifier::external_body]
fn raw_has(b: &ParsedSection, id: u32) -> (r: bool)
    ensures
        r == (id < btf_held(*b).len()),
{
    b.inner.resolve_type_by_id(id).is_ok()
}

/// `btf_rs::Type::name` of the node that `btf_rs::Btf::resolve_type_by_id`
/// gives for `id`: the tag of its kind.
#[verifier::external_body]
fn raw_tag(b: &ParsedSection, id: u32) -> (r: &'static str)
    requires
        id < btf_held(*b).len(),
    ensures
        r@ == btf_held(*b)[id as int].t.t.tag(),
{
    b.inner.resolve_type_by_id(id).map(|t| t.name()).unwrap_or("")
}

/// `size` of `btf_rs::Int`, `Enum`, `Struct` (which is `Union` too), `Float`
/// and `Enum64`, on the node that `btf_rs::Btf::resolve_type_by_id` gives for
/// `id`; nothing for the other kinds.
#[verifier::external_body]
fn raw_size(b: &ParsedSection, id: u32) -> (r: Option<usize>)
    requires
        id < btf_held(*b).len(),
    ensures
        r == btf_held(*b)[id as int].t.byte_size(),
{
    Some(match b.inner.resolve_type_by_id(id).ok()? {
        btf_rs::Type::Int(i) => i.size(),
        btf_rs::Type::Enum(e) => e.size(),
        btf_rs::Type::Union(u) => u.size(),
        btf_rs::Type::Struct(s) => s.size(),
        btf_rs::Type::Float(f) => f.size(),
        btf_rs::Type::Enum64(e) => e.size(),
        _ => return None,
    })
}

/// `btf_rs::BtfType::get_type_id` of node `id`, for the kinds that
/// `btf_rs::Type::as_btf_type` knows.
#[verifier::external_body]
fn raw_target(b: &ParsedSection, id: u32) -> (r: Option<u32>)
    requires
        id < btf_held(*b).len(),
    ensures
        r == btf_held(*b)[id as int].t.t.target(),
{
    b.inner.resolve_type_by_id(id).ok()?.as_btf_type()?.get_type_id()
}

/// `is_signed` of `btf_rs::Int`, `Enum` and `Enum64`, on the node that
/// `btf_rs::Btf::resolve_type_by_id` gives for `id`; nothing for the other
/// kinds.
#[verifier::external_body]
fn raw_sign(b: &ParsedSection, id: u32) -> (r: Option<bool>)
    requires
        id < btf_held(*b).len(),
    ensures
        r == declared_sign(btf_held(*b)[id as int].t.t),
{
    match b.inner.resolve_type_by_id(id).ok()? {
        btf_rs::Type::Int(i) => Some(i.is_signed()),
        btf_rs::Type::Enum(e) => Some(e.is_signed()),
        btf_rs::Type::Enum64(e) => Some(e.is_signed()),
        _ => None,
    }
}

/// `is_char` and `is_bool` of `btf_rs::Int`, on the node that
/// `btf_rs::Btf::resolve_type_by_id` gives for `id`; false for the other kinds.
#[verifier::external_body]
fn raw_int_flags(b: &ParsedSection, id: u32) -> (r: (bool, bool))
    requires
        id < btf_held(*b).len(),
    ensures
        r == int_flags(btf_held(*b)[id as int].t.t),
{
    match b.inner.resolve_type_by_id(id) {
        Ok(btf_rs::Type::Int(i)) => (i.is_char(), i.is_bool()),
        _ => (false, false),
    }
}

/// `is_union` of `btf_rs::Fwd`, on the node that
/// `btf_rs::Btf::resolve_type_by_id` gives for `id`; false for the other kinds.
#[verifier::external_body]
fn raw_fwd_union(b: &ParsedSection, id: u32) -> (r: bool)
    requires
        id < btf_held(*b).len(),
    ensures
        r == fwd_union(btf_held(*b)[id as int].t.t),
{
    match b.inner.resolve_type_by_id(id) {
        Ok(btf_rs::Type::Fwd(f)) => f.is_union(),
        _ => false,
    }
}

/// `len` of `btf_rs::Array`, on the node that
/// `btf_rs::Btf::resolve_type_by_id` gives for `id`; 0 for the other kinds.
#[verifier::external_body]
fn raw_array_len(b: &ParsedSection, id: u32) -> (r: usize)
    requires
        id < btf_held(*b).len(),
    ensures
        r == array_len(btf_held(*b)[id as int].t.t),
{
    match b.inner.resolve_type_by_id(id) {
        Ok(btf_rs::Type::Array(a)) => a.len(),
        _ => 0,
    }
}

/// `btf_rs::Btf::resolve_name` of the node that
/// `btf_rs::Btf::resolve_type_by_id` gives for `id`; empty where it finds no
/// name or `btf_rs::Type::as_btf_type` gives nothing.
#[verifier::external_body]
fn raw_name(b: &ParsedSection, id: u32) -> (r: String)
    requires
        id < btf_held(*b).len(),
    ensures
        r@ == btf_held(*b)[id as int].name@,
{
    let t = b.inner.resolve_type_by_id(id).ok();
    let n = t.as_ref().and_then(|t| t.as_btf_type()).and_then(|t| b.inner.resolve_name(t).ok());
    n.unwrap_or_default()
}

/// Length of the field `members` of `btf_rs::Struct`, on the node that
/// `btf_rs::Btf::resolve_type_by_id` gives for `id`; 0 for nodes that are
/// neither struct nor union.
#[verifier::external_body]
fn raw_member_count(b: &ParsedSection, id: u32) -> (r: usize)
    requires
        id < btf_held(*b).len(),
    ensures
        r == btf_held(*b)[id as int].members@.len(),
{
    match b.inner.resolve_type_by_id(id) {
        Ok(btf_rs::Type::Struct(s)) | Ok(btf_rs::Type::Union(s)) => s.members.len(),
        _ => 0,
    }
}

/// Member `i` of the struct or union node `id`: its name as
/// `btf_rs::Btf::resolve_name` finds it, empty where it finds none; what
/// `get_name_offset`, `get_type_id`, `bit_offset` and `bitfield_size` of
/// `btf_rs::Member` give; and its position `i`.
#[verifier::external_body]
fn raw_member(b: &ParsedSection, id: u32, i: usize) -> (r: Option<Member>)
    requires
        id < btf_held(*b).len(),
        i < btf_held(*b)[id as int].members@.len(),
    ensures
        r == Some(btf_held(*b)[id as int].members@[i as int]),
{
    let (btf_rs::Type::Struct(s) | btf_rs::Type::Union(s)) = b.inner.resolve_type_by_id(id).ok()? else {
        return None;
    };
    let m = s.members.get(i)?;
    Some(Member {
        name: b.inner.resolve_name(m).unwrap_or_default(),
        name_off: btf_rs::BtfType::get_name_offset(m)?,
        type_id: btf_rs::BtfType::get_type_id(m)?,
        bit_offset: m.bit_offset(),
        bitfield_size: m.bitfield_size(),
        idx: i as u64,
    })
}

/// Length of the field `members` of `btf_rs::Enum` and `Enum64`, on the node
/// that `btf_rs::Btf::resolve_type_by_id` gives for `id`; 0 for the other
/// kinds.
#[verifier::external_body]
fn raw_variant_count(b: &ParsedSection, id: u32) -> (r: usize)
    requires
        id < btf_held(*b).len(),
    ensures
        r == btf_held(*b)[id as int].variants@.len(),
{
    match b.inner.resolve_type_by_id(id) {
        Ok(btf_rs::Type::Enum(e)) => e.members.len(),
        Ok(btf_rs::Type::Enum64(e)) => e.members.len(),
        _ => 0,
    }
}

/// Variant `i` of the enum node `id`: its name as
/// `btf_rs::Btf::resolve_name` finds it, if it finds one, and what `val` of
/// `btf_rs::EnumMember` or `Enum64Member` gives, as a number of 128 bits.
#[verifier::external_body]
fn raw_variant(b: &ParsedSection, id: u32, i: usize) -> (r: Option<Variant>)
    requires
        id < btf_held(*b).len(),
        i < btf_held(*b)[id as int].variants@.len(),
    ensures
        r == Some(btf_held(*b)[id as int].variants@[i as int]),
{
    let (name, value) = match b.inner.resolve_type_by_id(id).ok()? {
        btf_rs::Type::Enum(e) => {
            let m = e.members.get(i)?;
            (b.inner.resolve_name(m).ok(), m.val() as i128)
        },
        btf_rs::Type::Enum64(e) => {
            let m = e.members.get(i)?;
            (b.inner.resolve_name(m).ok(), m.val() as i128)
        },
        _ => return None,
    };
    Some(Variant { name, value: EnumValue(value) })
}


/// The tag of a node tells its kind.
proof fn lemma_tags(m: Node)
    ensures
        m is Void <==> m.tag() == "void"@,
        m is Int <==> m.tag() == "int"@,
        m is Ptr <==> m.tag() == "ptr"@,
        m is Array <==> m.tag() == "array"@,
        m is Struct <==> m.tag() == "struct"@,
        m is Union <==> m.tag() == "union"@,
        m is Enum <==> m.tag() == "enum"@,
        m is Fwd <==> m.tag() == "fwd"@,
        m is Typedef <==> m.tag() == "typedef"@,
        m is Volatile <==> m.tag() == "volatile"@,
        m is Const <==> m.tag() == "const"@,
        m is Restrict <==> m.tag() == "restrict"@,
        m is Func <==> m.tag() == "func"@,
        m is FuncProto <==> m.tag() == "func-proto"@,
        m is Var <==> m.tag() == "var"@,
        m is Datasec <==> m.tag() == "datasec"@,
        m is Float <==> m.tag() == "float"@,
        m is DeclTag <==> m.tag() == "decl-tag"@,
        m is TypeTag <==> m.tag() == "type-tag"@,
        m is Enum64 <==> m.tag() == "enum64"@,
{
    reveal_strlit("void");
    reveal_strlit("int");
    reveal_strlit("ptr");
    reveal_strlit("array");
    reveal_strlit("struct");
    reveal_strlit("union");
    reveal_strlit("enum");
    reveal_strlit("fwd");
    reveal_strlit("typedef");
    reveal_strlit("volatile");
    reveal_strlit("const");
    reveal_strlit("restrict");
    reveal_strlit("func");
    reveal_strlit("func-proto");
    reveal_strlit("var");
    reveal_strlit("datasec");
    reveal_strlit("float");
    reveal_strlit("decl-tag");
    reveal_strlit("type-tag");
    reveal_strlit("enum64");
    let t = m.tag();
    assert(t.len() >= 3);
    let a = t[0];
    let b = t[1];
    let c = t[2];
}

/// Puts a node together from the tag of its kind and what the kind holds.
fn build_node(
    tag: &str,
    size: Option<usize>,
    target: Option<u32>,
    sign: Option<bool>,
    flags: (bool, bool),
    is_union: bool,
    len: usize,
    Ghost(m): Ghost<Node>,
) -> (r: Node)
    requires
        tag@ == m.tag(),
        size == (Type { t: m }).byte_size(),
        target == m.target(),
        sign == declared_sign(m),
        flags == int_flags(m),
        is_union == fwd_union(m),
        len == array_len(m),
    ensures
        r == m,
{
    proof {
        lemma_tags(m);
    }
    let size = match size {
        Some(s) => s,
        None => 0,
    };
    let target = match target {
        Some(t) => t,
        None => 0,
    };
    let signed = match sign {
        Some(s) => s,
        None => false,
    };
    if name_eq(tag, "void") {
        Node::Void
    } else if name_eq(tag, "int") {
        Node::Int { size, signed, is_char: flags.0, is_bool: flags.1 }
    } else if name_eq(tag, "ptr") {
        Node::Ptr { target }
    } else if name_eq(tag, "array") {
        Node::Array { elem: target, len }
    } else if name_eq(tag, "struct") {
        Node::Struct { size }
    } else if name_eq(tag, "union") {
        Node::Union { size }
    } else if name_eq(tag, "enum") {
        Node::Enum { size, signed }
    } else if name_eq(tag, "fwd") {
        Node::Fwd { is_union }
    } else if name_eq(tag, "typedef") {
        Node::Typedef { target }
    } else if name_eq(tag, "volatile") {
        Node::Volatile { target }
    } else if name_eq(tag, "const") {
        Node::Const { target }
    } else if name_eq(tag, "restrict") {
        Node::Restrict { target }
    } else if name_eq(tag, "func") {
        Node::Func { target }
    } else if name_eq(tag, "func-proto") {
        Node::FuncProto
    } else if name_eq(tag, "var") {
        Node::Var { target }
    } else if name_eq(tag, "datasec") {
        Node::Datasec
    } else if name_eq(tag, "float") {
        Node::Float { size }
    } else if name_eq(tag, "decl-tag") {
        Node::DeclTag { target }
    } else if name_eq(tag, "type-tag") {
        Node::TypeTag { target }
    } else {
        Node::Enum64 { size, signed }
    }
}

/// Takes over what the parsed section holds for node `id`.
fn load_entry(b: &ParsedSection, id: u32) -> (r: Entry)
    requires
        id < btf_held(*b).len(),
    ensures
        mirrors(r, btf_held(*b)[id as int]),
{
    let ghost held = btf_held(*b)[id as int];
    let node = build_node(
        raw_tag(b, id),
        raw_size(b, id),
        raw_target(b, id),
        raw_sign(b, id),
        raw_int_flags(b, id),
        raw_fwd_union(b, id),
        raw_array_len(b, id),
        Ghost(held.t.t),
    );
    let mut members: Vec<Member> = Vec::new();
    let n = raw_member_count(b, id);
    let mut i: usize = 0;
    while i < n
        invariant
            id < btf_held(*b).len(),
            held == btf_held(*b)[id as int],
            n == held.members@.len(),
            i <= n,
            members@ == held.members@.take(i as int),
        decreases n - i,
    {
        members.push(raw_member(b, id, i).unwrap());
        assert(members@ =~= held.members@.take(i + 1));
        i = i + 1;
    }
    assert(held.members@.take(n as int) =~= held.members@);
    let mut variants: Vec<Variant> = Vec::new();
    let c = raw_variant_count(b, id);
    let mut k: usize = 0;
    while k < c
        invariant
            id < btf_held(*b).len(),
            held == btf_held(*b)[id as int],
            c == held.variants@.len(),
            k <= c,
            variants@ == held.variants@.take(k as int),
        decreases c - k,
    {
        variants.push(raw_variant(b, id, k).unwrap());
        assert(variants@ =~= held.variants@.take(k + 1));
        k = k + 1;
    }
    assert(held.variants@.take(c as int) =~= held.variants@);
    Entry { t: Type { t: node }, name: raw_name(b, id), members, variants }
}

/// Takes over all nodes of a parsed section, in the order of their ids.
/// Gives nothing if there are more nodes than ids.
fn load_entries(b: &ParsedSection) -> (r: Option<Vec<Entry>>)
    ensures
        match r {
            Some(v) => same_graph(v@, btf_held(*b)),
            None => btf_held(*b).len() > u32::MAX,
        },
{
    let ghost held = btf_held(*b);
    let mut out: Vec<Entry> = Vec::new();
    let mut id: u32 = 0;
    loop
        invariant
            held == btf_held(*b),
            id == out@.len(),
            id <= held.len(),
            forall|i: int| 0 <= i < id ==> mirrors(#[trigger] out@[i], held[i]),
        decreases held.len() - id,
    {
        if !raw_has(b, id) {
            return Some(out);
        }
        out.push(load_entry(b, id));
        if id == u32::MAX {
            return None;
        }
        id = id + 1;
    }
}

/// The byte order that the first two bytes of a type section show.
pub open spec fn section_magic(raw: Seq<u8>) -> Option<Endian> {
    if raw.len() >= 2 && raw[0] == 0x9f && raw[1] == 0xeb {
        Some(Endian::Little)
    } else if raw.len() >= 2 && raw[0] == 0xeb && raw[1] == 0x9f {
        Some(Endian::Big)
    } else {
        None
    }
}

/// The position of the first section named `.BTF`, if there is one.
pub open spec fn btf_section_index(secs: Seq<crate::elf::Section>) -> Option<int> {
    if exists|i: int| #[trigger] crate::elf::first_btf_section(secs, i) {
        Some(choose|i: int| #[trigger] crate::elf::first_btf_section(secs, i))
    } else {
        None
    }
}

/// Where the type section is in a buffer, and its byte order: the buffer
/// itself if it starts like a type section; else, if it starts like an ELF
/// file, the bytes of that file's first section named `.BTF`.
pub open spec fn located(raw: Seq<u8>) -> Result<(Endian, Seq<u8>), BtfError> {
    match section_magic(raw) {
        Some(e) => Ok((e, raw)),
        None => match crate::elf::elf_magic(raw) {
            None => Err(BtfError::UnknownFormat),
            Some(e) => match crate::elf::elf_layout(raw) {
                None => Err(BtfError::InvalidElf),
                Some(l) => match btf_section_index(l.sections@) {
                    None => Err(BtfError::MissingSection),
                    Some(i) => if l.sections@[i].offset + l.sections@[i].size <= raw.len() {
                        Ok(
                            (
                                e,
                                raw.subrange(
                                    l.sections@[i].offset as int,
                                    l.sections@[i].offset + l.sections@[i].size,
                                ),
                            ),
                        )
                    } else {
                        Err(BtfError::SectionOutOfBounds)
                    },
                },
            },
        },
    }
}

proof fn lemma_first_section(secs: Seq<crate::elf::Section>, i: int)
    requires
        crate::elf::first_btf_section(secs, i),
    ensures
        btf_section_index(secs) == Some(i),
{
    let j = choose|j: int| #[trigger] crate::elf::first_btf_section(secs, j);
    if j < i {
        assert(!crate::elf::is_named(secs[j].name, ".BTF"@));
    } else if i < j {
        assert(!crate::elf::is_named(secs[i].name, ".BTF"@));
    }
}

/// Extracts the type section from a buffer and determines its byte order.
pub fn get_btf_section(raw: &[u8]) -> (r: Result<(Endian, &[u8]), BtfError>)
    ensures
        match r {
            Ok((e, sec)) => located(raw@) == Ok::<(Endian, Seq<u8>), BtfError>((e, sec@)),
            Err(x) => located(raw@) == Err::<(Endian, Seq<u8>), BtfError>(x),
        },
{
    if raw.len() >= 2 && raw[0] == 0x9f && raw[1] == 0xeb {
        return Ok((Endian::Little, raw));
    }
    if raw.len() >= 2 && raw[0] == 0xeb && raw[1] == 0x9f {
        return Ok((Endian::Big, raw));
    }
    let endian = match is_elf(raw) {
        Ok(endian) => endian,
        Err(_) => {
            return Err(BtfError::UnknownFormat);
        },
    };
    match extract_btfsec(raw) {
        Ok(sec) => {
            proof {
                let l = crate::elf::elf_layout(raw@).unwrap();
                let i = choose|i: int| #[trigger]
                    crate::elf::first_btf_section(l.sections@, i) && l.sections@[i].offset
                        + l.sections@[i].size <= raw@.len() && sec@ == raw@.subrange(
                        l.sections@[i].offset as int,
                        l.sections@[i].offset + l.sections@[i].size,
                    );
                lemma_first_section(l.sections@, i);
            }
            Ok((endian, sec))
        },
        Err(e) => {
            proof {
                if crate::elf::elf_layout(raw@) is Some {
                    let l = crate::elf::elf_layout(raw@).unwrap();
                    if e == ElfError::NoBtfSection {
                        assert(btf_section_index(l.sections@) is None);
                    } else {
                        let i = choose|i: int| #[trigger]
                            crate::elf::first_btf_section(l.sections@, i) && l.sections@[i].offset
                                + l.sections@[i].size > raw@.len();
                        lemma_first_section(l.sections@, i);
                    }
                }
            }
            Err(
                match e {
                    ElfError::NoBtfSection => BtfError::MissingSection,
                    ElfError::OutOfBounds => BtfError::SectionOutOfBounds,
                    _ => BtfError::InvalidElf,
                },
            )
        },
    }
}

/// Parses a type section and takes over its nodes.
pub fn read_section(sec: &[u8]) -> (r: Result<Vec<Entry>, BtfError>)
    ensures
        match r {
            Ok(v) => btf_layout(sec@) matches Some(g) && same_graph(v@, g),
            Err(e) => match btf_layout(sec@) {
                None => e == BtfError::InvalidSection,
                Some(g) => e == BtfError::Malformed && g.len() > u32::MAX,
            },
        },
{
    let b = match raw_parse(sec) {
        Some(b) => b,
        None => {
            return Err(BtfError::InvalidSection);
        },
    };
    match load_entries(&b) {
        Some(v) => Ok(v),
        None => Err(BtfError::Malformed),
    }
}


/// Why a buffer gives no type graph, if it does not: no type section is
/// found in it, or the section cannot be parsed, or what was parsed is no
/// graph that the library works on.
pub open spec fn load_error(raw: Seq<u8>) -> Option<BtfError> {
    match located(raw) {
        Err(e) => Some(e),
        Ok((_, sec)) => match btf_layout(sec) {
            None => Some(BtfError::InvalidSection),
            Some(g) => if graph_wf(g) {
                None
            } else {
                Some(BtfError::Malformed)
            },
        },
    }
}

/// Whether `b` is the type graph that the buffer `raw` from the source
/// `name` gives.
pub open spec fn loaded(b: Btf, name: Seq<char>, raw: Seq<u8>) -> bool {
    &&& located(raw) matches Ok((endian, sec)) && b.byte_order() == endian && (btf_layout(sec)
        matches Some(g) && same_graph(b@, g))
    &&& b.wf()
    &&& b.source_name() == name
    &&& b.raw_bytes() == raw
}

impl Btf {
    /// Reads a type graph from a buffer that holds a type section, or an ELF
    /// file with one. `name` is the name of the buffer's source.
    pub fn from_bytes(name: String, raw: Vec<u8>) -> (r: Result<Btf, BtfError>)
        ensures
            match r {
                Ok(b) => load_error(raw@) is None && loaded(b, name@, raw@),
                Err(e) => load_error(raw@) == Some(e),
            },
    {
        let (endian, entries) = match get_btf_section(raw.as_slice()) {
            Ok((endian, sec)) => match read_section(sec) {
                Ok(entries) => (endian, entries),
                Err(e) => {
                    return Err(e);
                },
            },
            Err(e) => {
                return Err(e);
            },
        };
        proof {
            let g = btf_layout(located(raw@).unwrap().1).unwrap();
            assert(same_graph(g, entries@)) by {
                assert forall|i: int| 0 <= i < g.len() implies mirrors(#[trigger] g[i], entries@[i]) by {
                    assert(mirrors(entries@[i], g[i]));
                }
            }
            if graph_wf(g) {
                lemma_same_wf(g, entries@);
            }
            if graph_wf(entries@) {
                lemma_same_wf(entries@, g);
            }
        }
        Btf::new(endian, name, raw, entries)
    }
}

} // verus!
