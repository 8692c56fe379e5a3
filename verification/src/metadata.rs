//! Metadata of a profile: who produced it, and from which sources.

use crate::btf::Btf;
use crate::symbols::Symbols;
use vstd::prelude::*;
use vstd::slice::slice_to_vec;
use vstd::string::*;

verus! {

/// Metadata about the tool that produced the profile.
#[derive(Debug)]
pub struct Producer {
    pub name: String,
    pub version: String,
}

/// Version of the profile format.
#[derive(Debug)]
pub struct Format(pub String);

/// Sources that can be used to generate (parts of) components of a profile.
#[derive(Clone, Copy, Debug, PartialEq, Eq, Structural)]
pub enum SourceKind {
    Symdb,
    Btf,
    SystemMap,
}

/// The kind of source that a number stands for.
pub open spec fn kind_of_number(desc: u32) -> SourceKind {
    if desc == 0 {
        SourceKind::Symdb
    } else if desc == 1 {
        SourceKind::Btf
    } else {
        SourceKind::SystemMap
    }
}

impl SourceKind {
    /// The kind of source that one of the numbers 0, 1 and 2 stands for.
    pub fn from_u32(desc: u32) -> (r: Self)
        requires
            desc <= 2,
        ensures
            r == kind_of_number(desc),
    {
        if desc == 0 {
            SourceKind::Symdb
        } else if desc == 1 {
            SourceKind::Btf
        } else {
            SourceKind::SystemMap
        }
    }
}

/// Metadata for a concrete source used to generate (part of) a component of
/// a profile.
#[derive(Debug)]
pub struct Source {
    pub kind: SourceKind,
    pub name: String,
    pub hash_type: String,
    pub hash_value: String,
}

/// The SHA-256 digest of the bytes, in lower case hexadecimal.
pub uninterp spec fn sha256_text(data: Seq<u8>) -> Seq<char>;

/// `Sha256` of the crate `crypto`, fed the bytes with `input` and read with
/// `result_str`: the digest is a function of the bytes.
#[verifier::external_body]
fn sha256_hex(data: &[u8]) -> (r: String)
    ensures
        r@ == sha256_text(data@),
{
    let mut hash = crypto::sha2::Sha256::new();
    crypto::digest::Digest::input(&mut hash, data);
    crypto::digest::Digest::result_str(&mut hash)
}

/// Whether `s` describes the source of kind `kind` with the given name and
/// bytes.
pub open spec fn describes(s: Source, kind: SourceKind, name: Seq<char>, raw: Seq<u8>) -> bool {
    &&& s.kind == kind
    &&& s.name@ == name
    &&& s.hash_type@ == "sha256"@
    &&& s.hash_value@ == sha256_text(raw)
}

/// Metadata for a component of the profile: a source of kind number `K`.
///
/// We provide metadata for the type information, the symbol file, and the
/// table of symbol types used to generate the profile.
#[derive(Debug)]
pub struct CompMeta<T, U, const K: u32> {
    pub raw: T,
    pub name: U,
}

impl<T, U, const K: u32> CompMeta<T, U, K> {
    pub fn new(raw: T, name: U) -> (r: Self)
        ensures
            r.raw == raw,
            r.name == name,
    {
        Self { raw, name }
    }

    pub fn try_new(raw: Option<T>, name: Option<U>) -> (r: Option<Self>)
        ensures
            match (raw, name) {
                (Some(a), Some(b)) => r matches Some(m) && m.raw == a && m.name == b,
                _ => r is None,
            },
    {
        match (raw, name) {
            (Some(raw), Some(name)) => Some(Self { raw, name }),
            _ => None,
        }
    }
}

impl<const K: u32> CompMeta<Vec<u8>, String, K> {
    /// The description of the source: its kind, its name and the digest of
    /// its bytes.
    pub fn source(self) -> (r: Source)
        requires
            K <= 2,
        ensures
            describes(r, kind_of_number(K), self.name@, self.raw@),
    {
        Source {
            kind: SourceKind::from_u32(K),
            name: self.name,
            hash_type: String::from_str("sha256"),
            hash_value: sha256_hex(self.raw.as_slice()),
        }
    }
}

pub type SymDbMeta = CompMeta<Vec<u8>, String, 0>;

pub type BtfMeta = CompMeta<Vec<u8>, String, 1>;

pub type MapMeta = CompMeta<Vec<u8>, String, 2>;

/// Metadata for Linux profiles: the sources used to generate the contained
/// type and symbol information.
#[derive(Debug)]
pub struct Linux {
    pub symbols: Vec<Source>,
    pub types: Vec<Source>,
}

/// Representation of the metadata object of a profile.
#[derive(Debug)]
pub struct Metadata {
    pub producer: Producer,
    pub format: Format,
    pub linux: Linux,
}

/// Builder for [`Metadata`].
#[derive(Debug)]
pub struct MetadataBuilder {
    pub btf: BtfMeta,
    pub map: Option<MapMeta>,
    pub symdb: Option<SymDbMeta>,
}

/// Whether `l` lists the sources that the builder holds: the type
/// information under the types; under the symbols the symbol file, if there
/// is one, and then the table of symbol types, if there is one.
pub open spec fn lists(l: Linux, b: MetadataBuilder) -> bool {
    &&& l.types@.len() == 1
    &&& describes(l.types@[0], SourceKind::Btf, b.btf.name@, b.btf.raw@)
    &&& l.symbols@.len() == (if b.map is Some {
        1int
    } else {
        0int
    }) + (if b.symdb is Some {
        1int
    } else {
        0int
    })
    &&& b.map matches Some(m) ==> describes(l.symbols@[0], SourceKind::SystemMap, m.name@, m.raw@)
    &&& b.symdb matches Some(s) ==> describes(
        l.symbols@[l.symbols@.len() - 1],
        SourceKind::Symdb,
        s.name@,
        s.raw@,
    )
}

/// Whether `m` is the metadata that the builder gives.
pub open spec fn built_from(m: Metadata, b: MetadataBuilder) -> bool {
    &&& m.producer.name@ == "btf2json"@
    &&& m.producer.version@ == "0.1.0"@
    &&& m.format.0@ == "6.2.0"@
    &&& lists(m.linux, b)
}

fn copy_of(v: &Vec<u8>) -> (r: Vec<u8>)
    ensures
        r@ == v@,
{
    slice_to_vec(v.as_slice())
}

impl Linux {
    pub fn from(ctx: MetadataBuilder) -> (r: Linux)
        ensures
            lists(r, ctx),
    {
        let mut types: Vec<Source> = Vec::new();
        types.push(ctx.btf.source());
        let mut symbols: Vec<Source> = Vec::new();
        match ctx.map {
            Some(map) => symbols.push(map.source()),
            None => {},
        }
        match ctx.symdb {
            Some(symdb) => symbols.push(symdb.source()),
            None => {},
        }
        Linux { symbols, types }
    }
}

impl Metadata {
    pub fn from(builder: MetadataBuilder) -> (r: Metadata)
        ensures
            built_from(r, builder),
    {
        Metadata {
            producer: Producer {
                name: String::from_str("btf2json"),
                version: String::from_str("0.1.0"),
            },
            format: Format(String::from_str("6.2.0")),
            linux: Linux::from(builder),
        }
    }
}

impl MetadataBuilder {
    pub fn build(self) -> (r: Metadata)
        ensures
            built_from(r, self),
    {
        Metadata::from(self)
    }

    /// Notes the sources of the type graph and of the symbols.
    pub fn new(btf: &Btf, syms: &Symbols) -> (r: Self)
        ensures
            r.btf.raw@ == btf.raw_bytes(),
            r.btf.name@ == btf.source_name(),
            match (syms.raw_map, syms.name_map) {
                (Some(raw), Some(name)) => r.map matches Some(m) && m.raw@ == raw@ && m.name@
                    == name@,
                _ => r.map is None,
            },
            match (syms.raw_symdb, syms.name_symdb) {
                (Some(raw), Some(name)) => r.symdb matches Some(m) && m.raw@ == raw@ && m.name@
                    == name@,
                _ => r.symdb is None,
            },
    {
        let map = match (syms.raw_map(), syms.map_name()) {
            (Some(raw), Some(name)) => Some(copy_of(raw)),
            _ => None,
        };
        let symdb = match (syms.raw_symdb(), syms.symdb_name()) {
            (Some(raw), Some(name)) => Some((copy_of(raw), name.clone())),
            _ => None,
        };
        Self {
            btf: BtfMeta::new(copy_of(btf.raw()), btf.name().clone()),
            map: MapMeta::try_new(map, syms.map_name()),
            symdb: match symdb {
                Some((raw, name)) => SymDbMeta::try_new(Some(raw), Some(name)),
                None => None,
            },
        }
    }
}

} // verus!
