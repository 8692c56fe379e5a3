//! Generating ISF profiles from BTF type information.

use crate::btf::ids_of;
use crate::btf::Btf;
use crate::btf::BtfError;
use crate::cli::base_offset_of;
use crate::cli::Cli;
use crate::parse::load_error;
use crate::parse::loaded;
use crate::symbols::banner_of;
use crate::symbols::gather_error;
use crate::symbols::gathered;
use crate::symbols::line_views;
use crate::symbols::SymbolsBuilder;
use crate::symbols::SymbolsError;
use crate::symbols::TextFile;
use crate::btf::Category;
use crate::btf::Id;
use crate::btf::Typedefs;
use crate::metadata::MetadataBuilder;
use crate::symbols::Symbols;
use vstd::prelude::*;

pub mod btf;
pub mod cli;
pub mod elf;
pub mod isf;
pub mod json;
pub mod metadata;
pub mod names;
pub mod parse;
pub mod symbols;
pub mod text;
pub mod v_symbols;
pub mod v_types;

verus! {

/// Information required to generate a profile.
pub struct GenerationContext {
    pub mbuilder: Option<MetadataBuilder>,
    pub btf: Btf,
    /// The ids of the structs and unions, ascending. In the end, the
    /// underlying types are going to be disambiguated by name. There can be
    /// types of the same kind and name, but with different ids; they are
    /// gone through in the order of the ids.
    pub user_ids: Vec<Id>,
    /// The ids of the enums, ascending.
    pub enum_ids: Vec<Id>,
    /// The ids of the base types, ascending.
    pub basic_ids: Vec<Id>,
    pub symbols: Symbols,
    pub typedefs: Typedefs,
}

impl GenerationContext {
    /// Whether the parts fit together: the graph is well-formed, the
    /// typedefs are those of the graph, each of the three lists holds the
    /// ids of all nodes of its category in ascending order, the symbols are
    /// in the order of their names, and the metadata is there.
    pub open spec fn wf(&self) -> bool {
        &&& self.mbuilder is Some
        &&& self.btf.wf()
        &&& self.typedefs.models(self.btf@)
        &&& self.user_ids@ == ids_of(self.btf@, self.btf@.len() as int, Category::User)
        &&& self.enum_ids@ == ids_of(self.btf@, self.btf@.len() as int, Category::Enum)
        &&& self.basic_ids@ == ids_of(self.btf@, self.btf@.len() as int, Category::Base)
        &&& self.symbols.symbols.wf()
    }
}


/// A file as it was read: its name and its bytes.
#[derive(Debug)]
pub struct BinaryFile {
    pub name: String,
    pub raw: Vec<u8>,
}

/// What was read of the sources that the command line names.
#[derive(Debug)]
pub struct Sources {
    /// The file with the type information, if the command line names one.
    pub btf: Option<BinaryFile>,
    /// The symbol file, if the command line names one.
    pub map: Option<TextFile>,
    /// The table of symbol types.
    pub symdb: TextFile,
}

/// Why the information for a profile could not be gathered.
#[derive(Clone, Copy, Debug, PartialEq, Eq, Structural)]
pub enum GatherError {
    /// No source for type information was given.
    NoTypeSource,
    /// Type information cannot be taken from a memory image.
    ImageUnsupported,
    /// The type graph could not be had.
    Btf(BtfError),
    /// The symbols could not be had.
    Symbols(SymbolsError),
}

/// Why the sources give no context, if they do not. The type information is
/// looked at before the symbols.
pub open spec fn context_error(cli: Cli, sources: Sources) -> Option<GatherError> {
    match sources.btf {
        None => if cli.image is Some {
            Some(GatherError::ImageUnsupported)
        } else {
            Some(GatherError::NoTypeSource)
        },
        Some(f) => match load_error(f.raw@) {
            Some(e) => Some(GatherError::Btf(e)),
            None => match gather_error(cli, sources.map, sources.symdb.lines@, Some(f.raw@)) {
                Some(e) => Some(GatherError::Symbols(e)),
                None => None,
            },
        },
    }
}

impl GenerationContext {
    /// Try to gather the required information from what was read of the
    /// sources given on the command line.
    pub fn try_from(cli: &Cli, sources: Sources) -> (r: Result<GenerationContext, GatherError>)
        ensures
            match r {
                Ok(ctx) => {
                    &&& context_error(*cli, sources) is None
                    &&& ctx.wf()
                    &&& loaded(ctx.btf, sources.btf.unwrap().name@, sources.btf.unwrap().raw@)
                    &&& ctx.user_ids@ == ids_of(ctx.btf@, ctx.btf@.len() as int, Category::User)
                    &&& ctx.enum_ids@ == ids_of(ctx.btf@, ctx.btf@.len() as int, Category::Enum)
                    &&& ctx.basic_ids@ == ids_of(ctx.btf@, ctx.btf@.len() as int, Category::Base)
                    &&& gathered(
                        ctx.symbols.symbols.entries@,
                        line_views(sources.map.unwrap().lines@),
                        base_offset_of(cli.arch),
                        sources.symdb.lines@,
                        banner_of(*cli, Some(sources.btf.unwrap().raw@)).unwrap(),
                    )
                    &&& ctx.mbuilder.unwrap().btf.raw@ == sources.btf.unwrap().raw@
                    &&& ctx.mbuilder.unwrap().btf.name@ == sources.btf.unwrap().name@
                    &&& ctx.mbuilder.unwrap().map matches Some(m) && m.raw@
                        == sources.map.unwrap().raw@ && m.name@ == sources.map.unwrap().name@
                    &&& ctx.mbuilder.unwrap().symdb matches Some(m) && m.raw@ == sources.symdb.raw@
                        && m.name@ == sources.symdb.name@
                },
                Err(e) => context_error(*cli, sources) == Some(e),
            },
    {
        let Sources { btf, map, symdb } = sources;
        let file = match btf {
            Some(file) => file,
            None => {
                if cli.image.is_some() {
                    return Err(GatherError::ImageUnsupported);
                }
                return Err(GatherError::NoTypeSource);
            },
        };
        let btf = match Btf::from_bytes(file.name, file.raw) {
            Ok(btf) => btf,
            Err(e) => {
                return Err(GatherError::Btf(e));
            },
        };
        let (user_ids, enum_ids, basic_ids, typedefs) = btf.gen_vol_id_sets().unwrap();
        let builder = match SymbolsBuilder::try_from(cli, map, symdb, Some(btf.raw().as_slice())) {
            Ok(b) => b,
            Err(e) => {
                return Err(GatherError::Symbols(e));
            },
        };
        let symbols = builder.add_types_from_btf(&btf).build();
        Ok(
            GenerationContext {
                mbuilder: Some(MetadataBuilder::new(&btf, &symbols)),
                btf,
                user_ids,
                enum_ids,
                basic_ids,
                symbols,
                typedefs,
            },
        )
    }
}

} // verus!
