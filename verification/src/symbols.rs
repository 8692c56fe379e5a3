//! Generation of symbol information.

use crate::cli::base_offset_of;
use crate::cli::Cli;
use crate::elf::elf_banner;
use crate::elf::find_banner;
use crate::names::ascending;
use crate::names::lemma_position;
use crate::names::distinct;
use crate::names::NameIndex;
use crate::names::NameMap;
use crate::names::Named;
use crate::text::chars_of;
use crate::text::find_space;
use crate::text::first_space;
use crate::text::hex_number;
use crate::text::minus;
use crate::text::parse_hex;
use crate::text::text_between;
use crate::text::wrapped_minus;
use vstd::prelude::*;
use vstd::string::*;

verus! {

/// Why symbol information could not be had.
#[derive(Clone, Copy, Debug, PartialEq, Eq, Structural)]
pub enum SymbolsError {
    /// A line of the symbol file does not consist of three fields.
    InvalidFormat,
    /// The second field of a line is empty.
    InvalidScope,
    /// The first field of a line is no hexadecimal number of 64 bits.
    InvalidAddress,
    /// The letter of a line names no kind of symbol.
    InvalidKind,
    /// The symbol file does not hold the symbol `_stext`, or holds it twice.
    NoStext,
    /// A line of the table of symbol types does not hold a name and a type.
    InvalidSymDb,
    /// No source for symbol information was given.
    NoSource,
    /// Symbols cannot be taken from a memory image.
    ImageUnsupported,
    /// No banner was given and none could be found.
    NoBanner,
    /// The symbols do not hold the banner's symbol.
    NoBannerSymbol,
}

#[derive(Clone, Copy, Debug, PartialEq, Eq, Structural)]
pub enum SymbolScope {
    Global,
    Local,
}

/// The scope that the letter of a symbol stands for: local if it is a lower
/// case letter.
pub open spec fn scope_of(c: char) -> SymbolScope {
    if 97 <= c as u32 <= 122 {
        SymbolScope::Local
    } else {
        SymbolScope::Global
    }
}

impl SymbolScope {
    pub fn from(chr: &char) -> (r: SymbolScope)
        ensures
            r == scope_of(*chr),
    {
        let v = *chr as u32;
        if 97 <= v && v <= 122 {
            SymbolScope::Local
        } else {
            SymbolScope::Global
        }
    }
}

#[derive(Clone, Copy, Debug, PartialEq, Eq, Structural)]
pub enum SymbolKind {
    /// weak object
    V,
    /// absolute
    A,
    /// .rodata
    R,
    /// weak
    W,
    /// .bss
    B,
    /// .data
    D,
    /// .text
    T,
}

/// The kind that the letter of a symbol stands for, in either case.
pub open spec fn kind_of(c: char) -> Option<SymbolKind> {
    if c == 'V' || c == 'v' {
        Some(SymbolKind::V)
    } else if c == 'A' || c == 'a' {
        Some(SymbolKind::A)
    } else if c == 'R' || c == 'r' {
        Some(SymbolKind::R)
    } else if c == 'W' || c == 'w' {
        Some(SymbolKind::W)
    } else if c == 'B' || c == 'b' {
        Some(SymbolKind::B)
    } else if c == 'D' || c == 'd' {
        Some(SymbolKind::D)
    } else if c == 'T' || c == 't' {
        Some(SymbolKind::T)
    } else {
        None
    }
}

impl SymbolKind {
    pub fn try_from(chr: &char) -> (r: Result<SymbolKind, SymbolsError>)
        ensures
            match r {
                Ok(k) => kind_of(*chr) == Some(k),
                Err(e) => kind_of(*chr) is None && e == SymbolsError::InvalidKind,
            },
    {
        let c = *chr;
        if c == 'V' || c == 'v' {
            Ok(SymbolKind::V)
        } else if c == 'A' || c == 'a' {
            Ok(SymbolKind::A)
        } else if c == 'R' || c == 'r' {
            Ok(SymbolKind::R)
        } else if c == 'W' || c == 'w' {
            Ok(SymbolKind::W)
        } else if c == 'B' || c == 'b' {
            Ok(SymbolKind::B)
        } else if c == 'D' || c == 'd' {
            Ok(SymbolKind::D)
        } else if c == 'T' || c == 't' {
            Ok(SymbolKind::T)
        } else {
            Err(SymbolsError::InvalidKind)
        }
    }
}

/// Information about a single symbol.
#[derive(Debug)]
pub struct Symbol {
    pub addr: u64,
    pub t: Option<String>,
    pub kind: SymbolKind,
    pub scope: SymbolScope,
    pub constant_data: Option<String>,
}

impl Symbol {
    /// The type of the symbol as text, if it is known.
    pub fn ty(&self) -> (r: Option<&String>)
        ensures
            match r {
                Some(s) => self.t == Some(*s),
                None => self.t is None,
            },
    {
        self.t.as_ref()
    }

    pub fn address(&self) -> (r: u64)
        ensures
            r == self.addr,
    {
        self.addr
    }

    /// Takes the constant payload out of the symbol.
    pub fn constant_data(&mut self) -> (r: Option<String>)
        ensures
            r == old(self).constant_data,
            final(self).constant_data is None,
            final(self).addr == old(self).addr,
            final(self).t == old(self).t,
            final(self).kind == old(self).kind,
            final(self).scope == old(self).scope,
    {
        let mut out: Option<String> = None;
        core::mem::swap(&mut out, &mut self.constant_data);
        out
    }
}

/// What one line of a symbol file says of its symbol.
#[derive(Clone, Copy, Debug, PartialEq, Eq, Structural)]
pub struct RawSymbol {
    pub addr: u64,
    pub kind: SymbolKind,
    pub scope: SymbolScope,
}

/// The three fields of a line of a symbol file.
pub struct Fields {
    pub addr: Seq<char>,
    pub scope: Seq<char>,
    pub name: Seq<char>,
}

/// The fields of a line: what stands before, between and after its two
/// spaces. A line with fewer or more spaces has none.
pub open spec fn fields(line: Seq<char>) -> Option<Fields> {
    let a = first_space(line, 0);
    let b = first_space(line, a + 1);
    if a < line.len() && b < line.len() && first_space(line, b + 1) == line.len() {
        Some(
            Fields {
                addr: line.subrange(0, a),
                scope: line.subrange(a + 1, b),
                name: line.subrange(b + 1, line.len() as int),
            },
        )
    } else {
        None
    }
}

/// What a line with three fields says of its symbol, or what is wrong with
/// it: an empty second field, an address that is no number, a letter that
/// names no kind, looked for in this order.
pub open spec fn line_check(f: Fields) -> Result<RawSymbol, SymbolsError> {
    if f.scope.len() == 0 {
        Err(SymbolsError::InvalidScope)
    } else {
        match hex_number(f.addr) {
            None => Err(SymbolsError::InvalidAddress),
            Some(addr) => match kind_of(f.scope[0]) {
                None => Err(SymbolsError::InvalidKind),
                Some(kind) => Ok(RawSymbol { addr, kind, scope: scope_of(f.scope[0]) }),
            },
        }
    }
}

/// Whether line `i` has three fields and names the symbol `k`.
pub open spec fn names_symbol(lines: Seq<Seq<char>>, i: int, k: Seq<char>) -> bool {
    fields(lines[i]) matches Some(f) && f.name == k
}

/// How many of the first `n` lines name the symbol `k`.
pub open spec fn occurrences(lines: Seq<Seq<char>>, n: int, k: Seq<char>) -> nat
    decreases n,
{
    if n <= 0 {
        0
    } else if names_symbol(lines, n - 1, k) {
        occurrences(lines, n - 1, k) + 1
    } else {
        occurrences(lines, n - 1, k)
    }
}

/// The last of the first `n` lines that names the symbol `k`.
pub open spec fn last_line(lines: Seq<Seq<char>>, n: int, k: Seq<char>) -> int
    decreases n,
{
    if n <= 0 {
        -1
    } else if names_symbol(lines, n - 1, k) {
        n - 1
    } else {
        last_line(lines, n - 1, k)
    }
}

/// What is wrong with line `i`, if anything: it does not have three fields;
/// or it is the first line to name its symbol and says nothing valid of it.
/// What a later line says of a symbol that was named before is not looked
/// at.
pub open spec fn line_fault(lines: Seq<Seq<char>>, i: int) -> Option<SymbolsError> {
    match fields(lines[i]) {
        None => Some(SymbolsError::InvalidFormat),
        Some(f) => if occurrences(lines, i, f.name) > 0 {
            None
        } else {
            match line_check(f) {
                Err(e) => Some(e),
                Ok(_) => None,
            }
        },
    }
}

/// What is wrong with the first of the first `n` lines that has a fault.
pub open spec fn first_fault(lines: Seq<Seq<char>>, n: int) -> Option<SymbolsError>
    decreases n,
{
    if n <= 0 {
        None
    } else {
        match first_fault(lines, n - 1) {
            Some(e) => Some(e),
            None => line_fault(lines, n - 1),
        }
    }
}

/// A fault among the first `n` lines is the first fault of any more lines.
pub proof fn lemma_fault_stays(lines: Seq<Seq<char>>, n: int, m: int)
    requires
        first_fault(lines, n) is Some,
        n <= m,
    ensures
        first_fault(lines, m) == first_fault(lines, n),
    decreases m - n,
{
    if n < m {
        lemma_fault_stays(lines, n, m - 1);
    }
}

/// What the symbol file says of the symbol `k`: what the last line that
/// names it says.
pub open spec fn raw_of(lines: Seq<Seq<char>>, k: Seq<char>) -> RawSymbol {
    match fields(lines[last_line(lines, lines.len() as int, k)]) {
        Some(f) => match line_check(f) {
            Ok(r) => r,
            Err(_) => RawSymbol { addr: 0, kind: SymbolKind::A, scope: SymbolScope::Global },
        },
        None => RawSymbol { addr: 0, kind: SymbolKind::A, scope: SymbolScope::Global },
    }
}

/// The address under which a symbol is published: its address in the symbol
/// file, less what lies between the file's `_stext` and the base offset of
/// the architecture; in arithmetic modulo 2^64.
pub open spec fn published(raw: u64, stext: u64, base: u64) -> u64 {
    wrapped_minus(raw, wrapped_minus(stext, base))
}

/// Why a symbol file gives no symbols, if it does not: the first fault of
/// its lines; or, without one, that `_stext` is not named exactly once.
pub open spec fn map_error(lines: Seq<Seq<char>>) -> Option<SymbolsError> {
    match first_fault(lines, lines.len() as int) {
        Some(e) => Some(e),
        None => if occurrences(lines, lines.len() as int, "_stext"@) == 1 {
            None
        } else {
            Some(SymbolsError::NoStext)
        },
    }
}

/// Whether `m` holds the symbols that the lines give: those that exactly one
/// line names, each with its published address, kind and scope, and without
/// type and payload.
pub open spec fn map_symbols(m: Map<Seq<char>, Symbol>, lines: Seq<Seq<char>>, base: u64) -> bool {
    forall|k: Seq<char>|
        (#[trigger] m.contains_key(k) <==> occurrences(lines, lines.len() as int, k) == 1) && (
        m.contains_key(k) ==> {
            &&& m[k].addr == published(raw_of(lines, k).addr, raw_of(lines, "_stext"@).addr, base)
            &&& m[k].kind == raw_of(lines, k).kind
            &&& m[k].scope == raw_of(lines, k).scope
            &&& m[k].t is None
            &&& m[k].constant_data is None
        })
}

/// What the scan of a symbol file holds for one name.
#[derive(Clone, Copy, Debug, PartialEq, Eq, Structural)]
pub struct Slot {
    pub sym: RawSymbol,
    /// Whether more than one line named the symbol.
    pub dup: bool,
}

/// Whether `s` holds what the first `n` lines give.
pub open spec fn scanned(s: Map<Seq<char>, Slot>, lines: Seq<Seq<char>>, n: int) -> bool {
    forall|k: Seq<char>|
        (#[trigger] s.contains_key(k) <==> occurrences(lines, n, k) > 0) && (s.contains_key(k) ==> {
            &&& s[k].dup <==> occurrences(lines, n, k) >= 2
            &&& !s[k].dup ==> (fields(lines[last_line(lines, n, k)]) matches Some(f) && line_check(f)
                == Ok::<RawSymbol, SymbolsError>(s[k].sym))
        })
}

/// Whether the symbol `o` is what the scan's entry `s`, which no second line
/// named, gives once its address is shifted down by `shift`.
pub open spec fn came_from(o: Named<Symbol>, s: Named<Slot>, shift: u64) -> bool {
    &&& !s.value.dup
    &&& s.name@ == o.name@
    &&& o.value.addr == wrapped_minus(s.value.sym.addr, shift)
    &&& o.value.kind == s.value.sym.kind
    &&& o.value.scope == s.value.sym.scope
    &&& o.value.t is None
    &&& o.value.constant_data is None
}

/// Whether the symbol `o` came from one of the first `i` entries of the scan.
pub open spec fn sourced(o: Named<Symbol>, src: Seq<Named<Slot>>, i: int, shift: u64) -> bool {
    exists|p: int| 0 <= p < i && came_from(o, #[trigger] src[p], shift)
}

proof fn lemma_sourced(o: Named<Symbol>, src: Seq<Named<Slot>>, i: int, shift: u64)
    requires
        sourced(o, src, i, shift),
    ensures
        sourced(o, src, i + 1, shift),
{
    let p = choose|p: int| 0 <= p < i && came_from(o, #[trigger] src[p], shift);
    assert(came_from(o, src[p], shift));
}

/// The two spaces of a line that consists of three fields.
fn split_line(chars: &Vec<char>) -> (r: Option<(usize, usize)>)
    ensures
        match r {
            Some((a, b)) => fields(chars@) is Some && a == first_space(chars@, 0) && b
                == first_space(chars@, a + 1) && a < b < chars@.len(),
            None => fields(chars@) is None,
        },
{
    let n = chars.len();
    let a = find_space(chars, 0);
    if a >= n {
        return None;
    }
    let b = find_space(chars, a + 1);
    if b >= n {
        return None;
    }
    let c = find_space(chars, b + 1);
    if c < n {
        return None;
    }
    Some((a, b))
}

/// Reads what a line with its two spaces at `a` and `b` says of its symbol.
fn read_fields(chars: &Vec<char>, a: usize, b: usize) -> (r: Result<RawSymbol, SymbolsError>)
    requires
        fields(chars@) is Some,
        a == first_space(chars@, 0),
        b == first_space(chars@, a + 1),
        a < b < chars@.len(),
    ensures
        r == line_check(fields(chars@).unwrap()),
{
    let ghost f = fields(chars@).unwrap();
    if b == a + 1 {
        return Err(SymbolsError::InvalidScope);
    }
    let letter = chars[a + 1];
    assert(f.scope[0] == letter);
    let addr = match parse_hex(chars, 0, a) {
        Some(addr) => addr,
        None => {
            return Err(SymbolsError::InvalidAddress);
        },
    };
    let kind = match SymbolKind::try_from(&letter) {
        Ok(kind) => kind,
        Err(e) => {
            return Err(e);
        },
    };
    Ok(RawSymbol { addr, kind, scope: SymbolScope::from(&letter) })
}

/// The views of the lines.
pub open spec fn line_views(lines: Seq<String>) -> Seq<Seq<char>> {
    Seq::new(lines.len(), |i: int| lines[i]@)
}

/// Goes through the lines of a symbol file and notes for each name what the
/// first line that names it says, and whether more lines name it.
fn scan_lines(lines: &Vec<String>) -> (r: Result<NameIndex<Slot>, SymbolsError>)
    ensures
        match r {
            Ok(s) => s.wf() && first_fault(line_views(lines@), lines@.len() as int) is None
                && scanned(s@, line_views(lines@), lines@.len() as int),
            Err(e) => first_fault(line_views(lines@), lines@.len() as int) == Some(e),
        },
{
    let ghost ls = line_views(lines@);
    let mut seen: NameIndex<Slot> = NameIndex::new();
    let mut n: usize = 0;
    while n < lines.len()
        invariant
            ls == line_views(lines@),
            n <= lines@.len(),
            seen.wf(),
            first_fault(ls, n as int) is None,
            scanned(seen@, ls, n as int),
        decreases lines@.len() - n,
    {
        let line = lines[n].as_str();
        assert(ls[n as int] == line@);
        let chars = chars_of(line);
        let (a, b) = match split_line(&chars) {
            Some(ab) => ab,
            None => {
                proof {
                    assert(first_fault(ls, n + 1) == Some(SymbolsError::InvalidFormat));
                    lemma_fault_stays(ls, n + 1, lines@.len() as int);
                }
                return Err(SymbolsError::InvalidFormat);
            },
        };
        let name = text_between(line, b + 1, chars.len());
        let ghost f = fields(ls[n as int]).unwrap();
        assert(name@ == f.name);
        let ghost before = seen@;
        match seen.find(name.as_str()) {
            Some(p) => {
                proof {
                    lemma_position(seen.entries@, p as int);
                }
                let sym = seen.entries[p].value.sym;
                seen.put(name, Slot { sym, dup: true });
            },
            None => {
                let sym = match read_fields(&chars, a, b) {
                    Ok(sym) => sym,
                    Err(e) => {
                        proof {
                            assert(first_fault(ls, n + 1) == Some(e));
                            lemma_fault_stays(ls, n + 1, lines@.len() as int);
                        }
                        return Err(e);
                    },
                };
                seen.put(name, Slot { sym, dup: false });
            },
        }
        proof {
            assert forall|k: Seq<char>|
                (#[trigger] seen@.contains_key(k) <==> occurrences(ls, n + 1, k) > 0) && (
                seen@.contains_key(k) ==> {
                    &&& seen@[k].dup <==> occurrences(ls, n + 1, k) >= 2
                    &&& !seen@[k].dup ==> (fields(ls[last_line(ls, n + 1, k)]) matches Some(f2)
                        && line_check(f2) == Ok::<RawSymbol, SymbolsError>(seen@[k].sym))
                }) by {
                assert(before.contains_key(k) <==> occurrences(ls, n as int, k) > 0);
            }
        }
        n = n + 1;
    }
    Ok(seen)
}

/// Reads the lines of a symbol file: `<hex address> <letter> <name>` each.
/// A symbol that several lines name is left out. The symbol `_stext` must be
/// there; each address is published less what lies between `_stext` and
/// `base_offset`.
pub fn parse_system_map(lines: &Vec<String>, base_offset: u64) -> (r: Result<
    NameMap<Symbol>,
    SymbolsError,
>)
    ensures
        match r {
            Ok(m) => map_error(line_views(lines@)) is None && m.wf() && map_symbols(
                m@,
                line_views(lines@),
                base_offset,
            ),
            Err(e) => map_error(line_views(lines@)) == Some(e),
        },
{
    let ghost ls = line_views(lines@);
    let seen = match scan_lines(lines) {
        Ok(seen) => seen,
        Err(e) => {
            return Err(e);
        },
    };
    let stext = match seen.get("_stext") {
        Some(slot) => {
            if slot.dup {
                return Err(SymbolsError::NoStext);
            }
            slot.sym.addr
        },
        None => {
            return Err(SymbolsError::NoStext);
        },
    };
    let shift = minus(stext, base_offset);
    assert(occurrences(ls, ls.len() as int, "_stext"@) == 1);
    assert(stext == raw_of(ls, "_stext"@).addr);
    let ghost src = seen.entries@;
    let mut out: Vec<Named<Symbol>> = Vec::new();
    let mut i: usize = 0;
    while i < seen.entries.len()
        invariant
            src == seen.entries@,
            distinct(src),
            i <= src.len(),
            distinct(out@),
            forall|j: int| 0 <= j < out@.len() ==> sourced(#[trigger] out@[j], src, i as int, shift),
            forall|p: int|
                0 <= p < i && !(#[trigger] src[p]).value.dup ==> crate::names::has_name(
                    out@,
                    src[p].name@,
                ),
        decreases src.len() - i,
    {
        let e = &seen.entries[i];
        let ghost before = out@;
        if !e.value.dup {
            out.push(
                Named {
                    name: e.name.clone(),
                    value: Symbol {
                        addr: minus(e.value.sym.addr, shift),
                        t: None,
                        kind: e.value.sym.kind,
                        scope: e.value.sym.scope,
                        constant_data: None,
                    },
                },
            );
            proof {
                let last = before.len() as int;
                assert(came_from(out@[last], src[i as int], shift));
                assert forall|x: int, y: int| 0 <= x < y < out@.len() implies #[trigger] out@[x].name@
                    != #[trigger] out@[y].name@ by {
                    assert(out@[x] == before[x]);
                    if y < last {
                        assert(out@[y] == before[y]);
                    } else {
                        let p = choose|p: int|
                            0 <= p < i && came_from(before[x], #[trigger] src[p], shift);
                        assert(src[p].name@ != src[i as int].name@);
                    }
                }
                assert forall|p: int|
                    0 <= p < i + 1 && !(#[trigger] src[p]).value.dup implies crate::names::has_name(
                    out@,
                    src[p].name@,
                ) by {
                    if p < i {
                        let j = choose|j: int|
                            0 <= j < before.len() && #[trigger] before[j].name@ == src[p].name@;
                        assert(out@[j].name@ == src[p].name@);
                    } else {
                        assert(out@[last].name@ == src[p].name@);
                    }
                }
            }
        }
        proof {
            assert forall|j: int| 0 <= j < out@.len() implies sourced(
                #[trigger] out@[j],
                src,
                i + 1,
                shift,
            ) by {
                if j < before.len() {
                    assert(out@[j] == before[j]);
                    lemma_sourced(before[j], src, i as int, shift);
                } else {
                    assert(came_from(out@[j], src[i as int], shift));
                }
            }
        }
        i = i + 1;
    }
    let ghost found = out@;
    let map = NameMap::from_distinct(out);
    proof {
        let n = ls.len() as int;
        assert forall|k: Seq<char>|
            (#[trigger] map@.contains_key(k) <==> occurrences(ls, n, k) == 1) && (map@.contains_key(
                k,
            ) ==> {
                &&& map@[k].addr == published(
                    raw_of(ls, k).addr,
                    raw_of(ls, "_stext"@).addr,
                    base_offset,
                )
                &&& map@[k].kind == raw_of(ls, k).kind
                &&& map@[k].scope == raw_of(ls, k).scope
                &&& map@[k].t is None
                &&& map@[k].constant_data is None
            }) by {
            assert(seen@.contains_key(k) <==> occurrences(ls, n, k) > 0);
            if map@.contains_key(k) {
                let j = crate::names::position(found, k);
                lemma_position(found, j);
                let p = choose|p: int|
                    0 <= p < src.len() && came_from(found[j], #[trigger] src[p], shift);
                lemma_position(src, p);
            }
            if occurrences(ls, n, k) == 1 {
                let p = crate::names::position(src, k);
                lemma_position(src, p);
                assert(crate::names::has_name(found, src[p].name@));
            }
        }
    }
    Ok(map)
}


/// The name and the type of a line of the table of symbol types: what stands
/// before and after its first space.
pub open spec fn name_and_type(line: Seq<char>) -> Option<(Seq<char>, Seq<char>)> {
    let a = first_space(line, 0);
    if a < line.len() {
        Some((line.subrange(0, a), line.subrange(a + 1, line.len() as int)))
    } else {
        None
    }
}

/// Mapping from symbol names to types, as the lines of a table give it.
#[derive(Debug)]
pub struct SymDb {
    /// Each line's name with its type, in the order of the lines.
    pub lines: Vec<Named<String>>,
}

impl SymDb {
    /// Reads the lines of a table of symbol types: a name, a space and a
    /// type each.
    pub fn new(lines: &Vec<String>) -> (r: Result<SymDb, SymbolsError>)
        ensures
            match r {
                Ok(db) => db.lines@.len() == lines@.len() && forall|i: int|
                    0 <= i < lines@.len() ==> name_and_type(lines@[i]@) == Some(
                        ((#[trigger] db.lines@[i]).name@, db.lines@[i].value@),
                    ),
                Err(e) => e == SymbolsError::InvalidSymDb && exists|i: int|
                    0 <= i < lines@.len() && name_and_type(#[trigger] lines@[i]@) is None,
            },
    {
        let mut out: Vec<Named<String>> = Vec::new();
        let mut i: usize = 0;
        while i < lines.len()
            invariant
                i <= lines@.len(),
                out@.len() == i,
                forall|j: int|
                    0 <= j < i ==> name_and_type(lines@[j]@) == Some(
                        ((#[trigger] out@[j]).name@, out@[j].value@),
                    ),
            decreases lines@.len() - i,
        {
            let line = lines[i].as_str();
            let chars = chars_of(line);
            let a = find_space(&chars, 0);
            if a >= chars.len() {
                assert(name_and_type(lines@[i as int]@) is None);
                return Err(SymbolsError::InvalidSymDb);
            }
            out.push(
                Named {
                    name: text_between(line, 0, a),
                    value: text_between(line, a + 1, chars.len()),
                },
            );
            i = i + 1;
        }
        Ok(SymDb { lines: out })
    }

    /// The names with their types, in the order of the lines.
    pub fn into_iter(self) -> (r: Vec<Named<String>>)
        ensures
            r == self.lines,
    {
        self.lines
    }
}

/// Symbol information that we have about the kernel.
#[derive(Debug)]
pub struct Symbols {
    pub raw_map: Option<Vec<u8>>,
    pub name_map: Option<String>,
    pub raw_symdb: Option<Vec<u8>>,
    pub name_symdb: Option<String>,
    pub symbols: NameMap<Symbol>,
    /// Where the kernel's text starts when it is not shifted.
    pub base_offset: u64,
}

/// How many of the first `n` symbols have a type.
pub open spec fn typed_count(syms: Seq<Named<Symbol>>, n: int) -> nat
    decreases n,
{
    if n <= 0 {
        0
    } else if syms[n - 1].value.t is Some {
        typed_count(syms, n - 1) + 1
    } else {
        typed_count(syms, n - 1)
    }
}

impl Symbols {
    /// Symbol information that holds nothing yet.
    pub fn new() -> (r: Symbols)
        ensures
            r.raw_map is None,
            r.name_map is None,
            r.raw_symdb is None,
            r.name_symdb is None,
            r.symbols.wf(),
            r.symbols.entries@.len() == 0,
            r.base_offset == 0,
    {
        Symbols {
            raw_map: None,
            name_map: None,
            raw_symdb: None,
            name_symdb: None,
            symbols: NameMap::new(),
            base_offset: 0,
        }
    }

    /// Returns number of symbols that have associated type information.
    pub fn with_types(&self) -> (r: u64)
        ensures
            r == typed_count(self.symbols.entries@, self.symbols.entries@.len() as int),
    {
        let mut count: u64 = 0;
        let mut i: usize = 0;
        while i < self.symbols.entries.len()
            invariant
                i <= self.symbols.entries@.len(),
                count == typed_count(self.symbols.entries@, i as int),
                count <= i,
            decreases self.symbols.entries@.len() - i,
        {
            if self.symbols.entries[i].value.t.is_some() {
                count = count + 1;
            }
            i = i + 1;
        }
        count
    }

    /// Get the bytes of the symbol file that was used to construct these
    /// `Symbols`.
    pub fn raw_map(&self) -> (r: Option<&Vec<u8>>)
        ensures
            match r {
                Some(v) => self.raw_map == Some(*v),
                None => self.raw_map is None,
            },
    {
        self.raw_map.as_ref()
    }

    /// Get name of the symbol file that was used to construct these
    /// `Symbols`.
    pub fn map_name(&self) -> (r: Option<String>)
        ensures
            r == self.name_map,
    {
        match &self.name_map {
            Some(s) => Some(s.clone()),
            None => None,
        }
    }

    /// Returns the bytes of the table of symbol types.
    pub fn raw_symdb(&self) -> (r: Option<&Vec<u8>>)
        ensures
            match r {
                Some(v) => self.raw_symdb == Some(*v),
                None => self.raw_symdb is None,
            },
    {
        self.raw_symdb.as_ref()
    }

    /// Returns the name of the table of symbol types.
    pub fn symdb_name(&self) -> (r: Option<&String>)
        ensures
            match r {
                Some(v) => self.name_symdb == Some(*v),
                None => self.name_symdb is None,
            },
    {
        self.name_symdb.as_ref()
    }

    pub fn sym_addr_from_name(&self, sym_name: &str) -> (r: Option<u64>)
        requires
            self.symbols.wf(),
        ensures
            match r {
                Some(a) => self.symbols@.contains_key(sym_name@) && a
                    == self.symbols@[sym_name@].addr,
                None => !self.symbols@.contains_key(sym_name@),
            },
    {
        match self.symbols.get(sym_name) {
            Some(s) => Some(s.addr),
            None => None,
        }
    }

    /// The symbols with their names, in the order of the names.
    pub fn into_iter(self) -> (r: Vec<Named<Symbol>>)
        ensures
            r == self.symbols.entries,
    {
        self.symbols.entries
    }
}

/// The text that stands for the bytes in base64, standard alphabet, padded.
pub uninterp spec fn base64_text(data: Seq<u8>) -> Seq<char>;

/// `encode` of `base64::prelude::BASE64_STANDARD`: the text is a function of
/// the bytes.
#[verifier::external_body]
fn base64_standard(data: &[u8]) -> (r: String)
    ensures
        r@ == base64_text(data@),
{
    base64::Engine::encode(&base64::prelude::BASE64_STANDARD, data)
}

/// Linux banner.
#[derive(Debug)]
pub struct Banner(pub String);

/// The banner that the command line and the buffer with the type
/// information give: the banner of the command line if it has one; else the
/// banner found in the buffer, if that is an ELF file with one.
pub open spec fn banner_of(cli: Cli, btf_raw: Option<Seq<u8>>) -> Result<Seq<char>, SymbolsError> {
    match cli.banner {
        Some(b) => Ok(b@),
        None => match btf_raw {
            Some(raw) if elf_banner(raw) is Some => Ok(elf_banner(raw).unwrap()),
            _ => if cli.image is Some {
                Err(SymbolsError::ImageUnsupported)
            } else {
                Err(SymbolsError::NoBanner)
            },
        },
    }
}

/// The bytes of an optional buffer.
pub open spec fn bytes_of(raw: Option<&[u8]>) -> Option<Seq<u8>> {
    match raw {
        Some(r) => Some(r@),
        None => None,
    }
}

impl Banner {
    /// The banner as text.
    pub fn text(&self) -> (r: &String)
        ensures
            r@ == self.0@,
    {
        &self.0
    }

    /// Finds the banner: a banner given on the command line takes
    /// precedence over one found in the buffer with the type information.
    pub fn try_from(cli: &Cli, btf_raw: Option<&[u8]>) -> (r: Result<Banner, SymbolsError>)
        ensures
            match r {
                Ok(b) => banner_of(*cli, bytes_of(btf_raw)) == Ok::<Seq<char>, SymbolsError>(b.0@),
                Err(e) => banner_of(*cli, bytes_of(btf_raw)) == Err::<Seq<char>, SymbolsError>(e),
            },
    {
        match &cli.banner {
            Some(b) => {
                return Ok(Banner(b.clone()));
            },
            None => {},
        }
        match btf_raw {
            Some(raw) => match find_banner(raw) {
                Some(s) => {
                    return Ok(Banner(s));
                },
                None => {},
            },
            None => {},
        }
        if cli.image.is_some() {
            Err(SymbolsError::ImageUnsupported)
        } else {
            Err(SymbolsError::NoBanner)
        }
    }
}

/// The last of the first `n` lines of a table of symbol types that names the
/// symbol `k`.
pub open spec fn last_entry(db: Seq<Named<String>>, n: int, k: Seq<char>) -> Option<int>
    decreases n,
{
    if n <= 0 {
        None
    } else if db[n - 1].name@ == k {
        Some(n - 1)
    } else {
        last_entry(db, n - 1, k)
    }
}

/// Whether symbol `is` is symbol `was` but for its type.
pub open spec fn same_but_type(is: Named<Symbol>, was: Named<Symbol>) -> bool {
    &&& is.name@ == was.name@
    &&& is.value.addr == was.value.addr
    &&& is.value.kind == was.value.kind
    &&& is.value.scope == was.value.scope
    &&& is.value.constant_data == was.value.constant_data
}

/// Whether the symbols `after` are the symbols `before` with the types that
/// the first `n` lines of the table give them: each symbol that the table
/// names has the type of the last line that names it.
pub open spec fn typed(
    after: Seq<Named<Symbol>>,
    before: Seq<Named<Symbol>>,
    db: Seq<Named<String>>,
    n: int,
) -> bool {
    &&& after.len() == before.len()
    &&& forall|i: int|
        0 <= i < before.len() ==> same_but_type(#[trigger] after[i], before[i]) && after[i].value.t
            == (match last_entry(db, n, before[i].name@) {
            Some(j) => Some(db[j].value),
            None => before[i].value.t,
        })
}

/// Whether the symbols `after` are the symbols `before` with the banner as
/// the payload of the symbol `linux_banner`, encoded in base64.
pub open spec fn with_banner(
    after: Seq<Named<Symbol>>,
    before: Seq<Named<Symbol>>,
    banner: Seq<char>,
) -> bool {
    &&& after.len() == before.len()
    &&& forall|i: int|
        0 <= i < before.len() ==> {
            let was = before[i];
            let is = #[trigger] after[i];
            &&& is.name@ == was.name@
            &&& is.value.addr == was.value.addr
            &&& is.value.kind == was.value.kind
            &&& is.value.scope == was.value.scope
            &&& is.value.t == was.value.t
            &&& if was.name@ == "linux_banner"@ {
                is.value.constant_data matches Some(d) && d@ == base64_text(
                    vstd::utf8::encode_utf8(banner),
                )
            } else {
                is.value.constant_data == was.value.constant_data
            }
        }
}

/// A file of text as it was read: its name, its bytes and its lines.
#[derive(Debug)]
pub struct TextFile {
    pub name: String,
    pub raw: Vec<u8>,
    pub lines: Vec<String>,
}

/// Whether `db` holds the name and the type of each of the lines.
pub open spec fn reads(db: Seq<Named<String>>, lines: Seq<String>) -> bool {
    &&& db.len() == lines.len()
    &&& forall|i: int|
        0 <= i < lines.len() ==> name_and_type(lines[i]@) == Some(
            ((#[trigger] db[i]).name@, db[i].value@),
        )
}

/// Whether every line of a table of symbol types holds a name and a type.
pub open spec fn readable(lines: Seq<String>) -> bool {
    forall|i: int| 0 <= i < lines.len() ==> name_and_type(#[trigger] lines[i]@) is Some
}

/// Whether `out` holds the symbols that the sources give: those of the
/// symbol file, with the types that the table of symbol types gives them,
/// and with the banner as the payload of its symbol.
pub open spec fn gathered(
    out: Seq<Named<Symbol>>,
    lines: Seq<Seq<char>>,
    base: u64,
    table: Seq<String>,
    banner: Seq<char>,
) -> bool {
    exists|s1: Seq<Named<Symbol>>, s2: Seq<Named<Symbol>>, db: Seq<Named<String>>|
        ascending(s1) && map_symbols(crate::names::as_map(s1), lines, base) && reads(db, table)
            && #[trigger] typed(s2, s1, db, db.len() as int) && with_banner(out, s2, banner)
}

/// Why the sources give no symbols, if they do not. The sources are looked
/// at in this order: the symbol file, the table of symbol types, the banner,
/// the banner's symbol.
pub open spec fn gather_error(
    cli: Cli,
    map: Option<TextFile>,
    table: Seq<String>,
    btf_raw: Option<Seq<u8>>,
) -> Option<SymbolsError> {
    match map {
        None => if cli.image is Some {
            Some(SymbolsError::ImageUnsupported)
        } else {
            Some(SymbolsError::NoSource)
        },
        Some(f) => match map_error(line_views(f.lines@)) {
            Some(e) => Some(e),
            None => if !readable(table) {
                Some(SymbolsError::InvalidSymDb)
            } else {
                match banner_of(cli, btf_raw) {
                    Err(e) => Some(e),
                    Ok(_) => if occurrences(
                        line_views(f.lines@),
                        f.lines@.len() as int,
                        "linux_banner"@,
                    ) == 1 {
                        None
                    } else {
                        Some(SymbolsError::NoBannerSymbol)
                    },
                }
            },
        },
    }
}

proof fn lemma_same_names(a: Seq<Named<Symbol>>, b: Seq<Named<Symbol>>, k: Seq<char>)
    requires
        a.len() == b.len(),
        forall|i: int| 0 <= i < a.len() ==> (#[trigger] a[i]).name@ == b[i].name@,
    ensures
        crate::names::has_name(a, k) == crate::names::has_name(b, k),
{
    if crate::names::has_name(a, k) {
        let i = choose|i: int| 0 <= i < a.len() && #[trigger] a[i].name@ == k;
        assert(b[i].name@ == k);
    }
    if crate::names::has_name(b, k) {
        let i = choose|i: int| 0 <= i < b.len() && #[trigger] b[i].name@ == k;
        assert(a[i].name@ == k);
    }
}

/// Used to build up symbol information by combining different sources.
#[derive(Debug)]
pub struct SymbolsBuilder(pub Symbols);

impl SymbolsBuilder {
    pub fn new() -> (r: Self)
        ensures
            r.0.raw_map is None,
            r.0.name_map is None,
            r.0.raw_symdb is None,
            r.0.name_symdb is None,
            r.0.symbols.wf(),
            r.0.symbols.entries@.len() == 0,
            r.0.base_offset == 0,
    {
        SymbolsBuilder(Symbols::new())
    }

    pub fn build(self) -> (r: Symbols)
        ensures
            r == self.0,
    {
        self.0
    }

    /// Sets the base offset to the default of the architecture that the
    /// command line names.
    pub fn add_base_offset_from_cli(self, cli: &Cli) -> (r: Self)
        ensures
            r.0.base_offset == base_offset_of(cli.arch),
            r.0.raw_map == self.0.raw_map,
            r.0.name_map == self.0.name_map,
            r.0.raw_symdb == self.0.raw_symdb,
            r.0.name_symdb == self.0.name_symdb,
            r.0.symbols == self.0.symbols,
    {
        let mut s = self.0;
        s.base_offset = cli.arch.base_offset();
        SymbolsBuilder(s)
    }

    /// Add symbol information from the lines of a symbol file, whose name
    /// and bytes are noted for the metadata.
    pub fn add_from_system_map(self, name: String, raw: Vec<u8>, lines: &Vec<String>) -> (r: Result<
        Self,
        SymbolsError,
    >)
        ensures
            match r {
                Ok(b) => map_error(line_views(lines@)) is None && b.0.symbols.wf() && map_symbols(
                    b.0.symbols@,
                    line_views(lines@),
                    self.0.base_offset,
                ) && b.0.raw_map == Some(raw) && b.0.name_map == Some(name) && b.0.raw_symdb
                    == self.0.raw_symdb && b.0.name_symdb == self.0.name_symdb && b.0.base_offset
                    == self.0.base_offset,
                Err(e) => map_error(line_views(lines@)) == Some(e),
            },
    {
        let mut s = self.0;
        let symbols = match parse_system_map(lines, s.base_offset) {
            Ok(m) => m,
            Err(e) => {
                return Err(e);
            },
        };
        s.symbols = symbols;
        s.raw_map = Some(raw);
        s.name_map = Some(name);
        Ok(SymbolsBuilder(s))
    }

    /// Add type information from a table of symbol types, whose name and
    /// bytes are noted for the metadata.
    pub fn add_types_from_symdb(self, db: &SymDb, name: String, raw: Vec<u8>) -> (r: Self)
        requires
            self.0.symbols.wf(),
        ensures
            r.0.symbols.wf(),
            typed(
                r.0.symbols.entries@,
                self.0.symbols.entries@,
                db.lines@,
                db.lines@.len() as int,
            ),
            r.0.raw_symdb == Some(raw),
            r.0.name_symdb == Some(name),
            r.0.raw_map == self.0.raw_map,
            r.0.name_map == self.0.name_map,
            r.0.base_offset == self.0.base_offset,
    {
        let mut s = self.0;
        let ghost before = s.symbols.entries@;
        let mut i: usize = 0;
        while i < db.lines.len()
            invariant
                i <= db.lines@.len(),
                s.symbols.wf(),
                typed(s.symbols.entries@, before, db.lines@, i as int),
                s.raw_symdb == self.0.raw_symdb,
                s.name_symdb == self.0.name_symdb,
                s.raw_map == self.0.raw_map,
                s.name_map == self.0.name_map,
                s.base_offset == self.0.base_offset,
            decreases db.lines@.len() - i,
        {
            let line = &db.lines[i];
            let ghost mid = s.symbols.entries@;
            match s.symbols.find(line.name.as_str()) {
                Some(p) => {
                    let old = s.symbols.swap_value(
                        p,
                        Symbol {
                            addr: 0,
                            t: None,
                            kind: SymbolKind::A,
                            scope: SymbolScope::Global,
                            constant_data: None,
                        },
                    );
                    s.symbols.swap_value(
                        p,
                        Symbol {
                            addr: old.addr,
                            t: Some(line.value.clone()),
                            kind: old.kind,
                            scope: old.scope,
                            constant_data: old.constant_data,
                        },
                    );
                    proof {
                        assert forall|j: int| 0 <= j < before.len() implies same_but_type(
                            #[trigger] s.symbols.entries@[j],
                            before[j],
                        ) && s.symbols.entries@[j].value.t == (match last_entry(
                            db.lines@,
                            i + 1,
                            before[j].name@,
                        ) {
                            Some(x) => Some(db.lines@[x].value),
                            None => before[j].value.t,
                        }) by {
                            assert(same_but_type(mid[j], before[j]));
                            if j != p {
                                crate::names::lemma_position(mid, j);
                                crate::names::lemma_position(mid, p as int);
                            }
                        }
                    }
                },
                None => {
                    proof {
                        assert forall|j: int| 0 <= j < before.len() implies same_but_type(
                            #[trigger] s.symbols.entries@[j],
                            before[j],
                        ) && s.symbols.entries@[j].value.t == (match last_entry(
                            db.lines@,
                            i + 1,
                            before[j].name@,
                        ) {
                            Some(x) => Some(db.lines@[x].value),
                            None => before[j].value.t,
                        }) by {
                            assert(same_but_type(mid[j], before[j]));
                            crate::names::lemma_position(mid, j);
                        }
                    }
                },
            }
            i = i + 1;
        }
        s.name_symdb = Some(name);
        s.raw_symdb = Some(raw);
        SymbolsBuilder(s)
    }

    /// Add type information from the type graph. Nothing is added yet.
    pub fn add_types_from_btf(self, _btf: &crate::btf::Btf) -> (r: Self)
        ensures
            r == self,
    {
        self
    }

    /// Add the base64 encoded banner as payload to the corresponding symbol.
    pub fn add_banner_from_cli(self, cli: &Cli, btf_raw: Option<&[u8]>) -> (r: Result<
        Self,
        SymbolsError,
    >)
        requires
            self.0.symbols.wf(),
        ensures
            match banner_of(*cli, bytes_of(btf_raw)) {
                Err(e) => r matches Err(x) && x == e,
                Ok(banner) => match r {
                    Err(x) => x == SymbolsError::NoBannerSymbol && !self.0.symbols@.contains_key(
                        "linux_banner"@,
                    ),
                    Ok(b) => {
                        &&& self.0.symbols@.contains_key("linux_banner"@)
                        &&& b.0.symbols.wf()
                        &&& with_banner(b.0.symbols.entries@, self.0.symbols.entries@, banner)
                        &&& b.0.raw_map == self.0.raw_map
                        &&& b.0.name_map == self.0.name_map
                        &&& b.0.raw_symdb == self.0.raw_symdb
                        &&& b.0.name_symdb == self.0.name_symdb
                        &&& b.0.base_offset == self.0.base_offset
                    },
                },
            },
    {
        let banner = match Banner::try_from(cli, btf_raw) {
            Ok(b) => b,
            Err(e) => {
                return Err(e);
            },
        };
        let mut s = self.0;
        let ghost before = s.symbols.entries@;
        let p = match s.symbols.find("linux_banner") {
            Some(p) => p,
            None => {
                return Err(SymbolsError::NoBannerSymbol);
            },
        };
        proof {
            crate::names::lemma_position(before, p as int);
        }
        let old = s.symbols.swap_value(
            p,
            Symbol {
                addr: 0,
                t: None,
                kind: SymbolKind::A,
                scope: SymbolScope::Global,
                constant_data: None,
            },
        );
        s.symbols.swap_value(
            p,
            Symbol {
                addr: old.addr,
                t: old.t,
                kind: old.kind,
                scope: old.scope,
                constant_data: Some(base64_standard(banner.0.as_str().as_bytes())),
            },
        );
        proof {
            assert forall|i: int| 0 <= i < before.len() && i != p implies before[i].name@
                != "linux_banner"@ by {
                crate::names::lemma_position(before, i);
            }
        }
        Ok(SymbolsBuilder(s))
    }
}


impl SymbolsBuilder {
    /// Gathers the symbol information from the sources that the command line
    /// names: the symbols of the symbol file, the types of the table of
    /// symbol types, and the banner.
    pub fn try_from(cli: &Cli, map: Option<TextFile>, symdb: TextFile, btf_raw: Option<&[u8]>) -> (r:
        Result<SymbolsBuilder, SymbolsError>)
        ensures
            match r {
                Ok(b) => gather_error(*cli, map, symdb.lines@, bytes_of(btf_raw)) is None
                    && b.0.symbols.wf() && gathered(
                    b.0.symbols.entries@,
                    line_views(map.unwrap().lines@),
                    base_offset_of(cli.arch),
                    symdb.lines@,
                    banner_of(*cli, bytes_of(btf_raw)).unwrap(),
                ) && b.0.raw_map == Some(map.unwrap().raw) && b.0.name_map == Some(
                    map.unwrap().name,
                ) && b.0.raw_symdb == Some(symdb.raw) && b.0.name_symdb == Some(symdb.name)
                    && b.0.base_offset == base_offset_of(cli.arch),
                Err(e) => gather_error(*cli, map, symdb.lines@, bytes_of(btf_raw)) == Some(e),
            },
    {
        let file = match map {
            Some(file) => file,
            None => {
                if cli.image.is_some() {
                    return Err(SymbolsError::ImageUnsupported);
                }
                return Err(SymbolsError::NoSource);
            },
        };
        let ghost lines = line_views(file.lines@);
        let first = match SymbolsBuilder::new().add_base_offset_from_cli(cli).add_from_system_map(
            file.name,
            file.raw,
            &file.lines,
        ) {
            Ok(b) => b,
            Err(e) => {
                return Err(e);
            },
        };
        let ghost s1 = first.0.symbols.entries@;
        let db = match SymDb::new(&symdb.lines) {
            Ok(db) => db,
            Err(e) => {
                assert(!readable(symdb.lines@));
                return Err(e);
            },
        };
        let second = first.add_types_from_symdb(&db, symdb.name, symdb.raw);
        let ghost s2 = second.0.symbols.entries@;
        proof {
            assert forall|i: int| 0 <= i < s2.len() implies (#[trigger] s2[i]).name@
                == s1[i].name@ by {
                assert(same_but_type(s2[i], s1[i]));
            }
            lemma_same_names(s2, s1, "linux_banner"@);
            assert(crate::names::as_map(s1).contains_key("linux_banner"@) <==> occurrences(
                lines,
                lines.len() as int,
                "linux_banner"@,
            ) == 1);
            assert forall|i: int| 0 <= i < symdb.lines@.len() implies name_and_type(
                #[trigger] symdb.lines@[i]@,
            ) is Some by {
                assert(name_and_type(symdb.lines@[i]@) == Some(
                    (db.lines@[i].name@, db.lines@[i].value@),
                ));
            }
            assert(readable(symdb.lines@));
            assert(reads(db.lines@, symdb.lines@));
        }
        match second.add_banner_from_cli(cli, btf_raw) {
            Ok(b) => {
                proof {
                    assert(typed(s2, s1, db.lines@, db.lines@.len() as int));
                    assert(gathered(
                        b.0.symbols.entries@,
                        lines,
                        base_offset_of(cli.arch),
                        symdb.lines@,
                        banner_of(*cli, bytes_of(btf_raw)).unwrap(),
                    ));
                }
                Ok(b)
            },
            Err(e) => Err(e),
        }
    }
}

} // verus!
