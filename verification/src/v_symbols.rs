//! The symbol entries of a profile.

use crate::json::descr_of_json;
use crate::json::json_layout;
use crate::symbols;
use crate::v_types::Descr;
use crate::v_types::TypeDescr;
use vstd::prelude::*;

verus! {

#[derive(Clone, Copy, Debug, PartialEq, Eq, Structural)]
pub enum Linkage {
    Global,
    Static,
}

/// A symbol of the profile.
#[derive(Debug)]
pub struct Symbol {
    pub address: u64,
    pub t: TypeDescr,
    pub linkage: Option<Linkage>,
    pub constant_data: Option<String>,
}


/// The type descriptor of a symbol whose type is given as the text `t`: the
/// descriptor that the text stands for as JSON, if it stands for one; void
/// for a symbol without a type.
pub open spec fn symbol_descr(t: Option<String>) -> Option<Descr> {
    match t {
        Some(text) => match json_layout(text@) {
            Some(j) => descr_of_json(j),
            None => None,
        },
        None => Some(Descr::Base { name: "void"@ }),
    }
}

/// Whether `s` is the profile's symbol for the symbol `from`.
pub open spec fn symbol_of(s: Symbol, from: symbols::Symbol) -> bool {
    &&& s.address == from.addr
    &&& symbol_descr(from.t) == Some(s.t@)
    &&& s.linkage is None
    &&& s.constant_data == from.constant_data
}

impl Symbol {
    /// The profile's symbol for a symbol; none if the symbol's type is not
    /// the JSON of a type descriptor.
    pub fn from(sym: symbols::Symbol) -> (r: Option<Symbol>)
        ensures
            match r {
                Some(s) => symbol_of(s, sym),
                None => symbol_descr(sym.t) is None,
            },
    {
        let mut sym = sym;
        let t = match sym.ty() {
            Some(text) => match TypeDescr::from_json_text(text.as_str()) {
                Some(t) => t,
                None => {
                    return None;
                },
            },
            None => TypeDescr::new_void(),
        };
        Some(Symbol { address: sym.address(), t, linkage: None, constant_data: sym.constant_data() })
    }
}

} // verus!
