//! The type graph: nodes, ids, resolution paths and the queries on them.

use std::collections::HashMap;
use std::collections::VecDeque;
use crate::text::decimal;
use crate::text::numbered;
use vstd::prelude::*;
use vstd::string::*;

verus! {

/// Byte order of a type section.
#[derive(Clone, Copy, Debug, PartialEq, Eq, Structural)]
pub enum Endian {
    Big,
    Little,
}

/// Index of a node in the type graph.
#[derive(Clone, Copy, Debug, PartialEq, Eq, PartialOrd, Ord, Hash, Structural)]
pub struct Id(pub u32);

impl Id {
    /// The id with the given number.
    pub fn new(id: u32) -> (r: Id)
        ensures
            r.0 == id,
    {
        Id(id)
    }

    /// The numeric value of the id.
    pub fn value(self) -> (r: u32)
        ensures
            r == self.0,
    {
        self.0
    }
}

impl From<u32> for Id {
    fn from(id: u32) -> (r: Self) {
        Id(id)
    }
}

impl vstd::std_specs::convert::FromSpecImpl<u32> for Id {
    open spec fn obeys_from_spec() -> bool {
        true
    }

    open spec fn from_spec(id: u32) -> Self {
        Id(id)
    }
}

impl From<Id> for u32 {
    fn from(id: Id) -> (r: u32) {
        id.0
    }
}

impl vstd::std_specs::convert::FromSpecImpl<Id> for u32 {
    open spec fn obeys_from_spec() -> bool {
        true
    }

    open spec fn from_spec(id: Id) -> u32 {
        id.0
    }
}

/// Discriminant of an enum variant.
#[derive(Clone, Copy, Debug, PartialEq, Eq, Structural)]
pub struct EnumValue(pub i128);

impl EnumValue {
    /// The discriminant as a number.
    pub fn value(self) -> (r: i128)
        ensures
            r == self.0,
    {
        self.0
    }
}

impl From<EnumValue> for i128 {
    fn from(ev: EnumValue) -> (r: i128) {
        ev.0
    }
}

impl vstd::std_specs::convert::FromSpecImpl<EnumValue> for i128 {
    open spec fn obeys_from_spec() -> bool {
        true
    }

    open spec fn from_spec(ev: EnumValue) -> i128 {
        ev.0
    }
}

/// Information about a bitfield member.
#[derive(Clone, Copy, Debug, PartialEq, Eq, Structural)]
pub struct BitfieldInfo {
    /// Offset of the first bit belonging to this bitfield into the byte where
    /// it begins.
    pub position: u8,
    /// Length of the bitfield in bits.
    pub length: u8,
}

/// One node of the type graph, with the plain values that type resolution
/// reads from it. References to other nodes are ids.
#[derive(Clone, Copy, Debug, PartialEq, Eq, Structural)]
pub enum Node {
    Void,
    Int { size: usize, signed: bool, is_char: bool, is_bool: bool },
    Ptr { target: u32 },
    Array { elem: u32, len: usize },
    Struct { size: usize },
    Union { size: usize },
    Enum { size: usize, signed: bool },
    Fwd { is_union: bool },
    Typedef { target: u32 },
    Volatile { target: u32 },
    Const { target: u32 },
    Restrict { target: u32 },
    Func { target: u32 },
    FuncProto,
    Var { target: u32 },
    Datasec,
    Float { size: usize },
    DeclTag { target: u32 },
    TypeTag { target: u32 },
    Enum64 { size: usize, signed: bool },
}

impl Node {
    /// The id of the node that this node refers to as its type, if its kind
    /// refers to one.
    pub open spec fn target(self) -> Option<u32> {
        match self {
            Node::Ptr { target } => Some(target),
            Node::Array { elem, .. } => Some(elem),
            Node::Typedef { target } => Some(target),
            Node::Volatile { target } => Some(target),
            Node::Const { target } => Some(target),
            Node::Restrict { target } => Some(target),
            Node::Func { target } => Some(target),
            Node::Var { target } => Some(target),
            Node::DeclTag { target } => Some(target),
            Node::TypeTag { target } => Some(target),
            _ => None,
        }
    }

    /// The short tag of the node's kind.
    pub open spec fn tag(self) -> Seq<char> {
        match self {
            Node::Void => "void"@,
            Node::Int { .. } => "int"@,
            Node::Ptr { .. } => "ptr"@,
            Node::Array { .. } => "array"@,
            Node::Struct { .. } => "struct"@,
            Node::Union { .. } => "union"@,
            Node::Enum { .. } => "enum"@,
            Node::Fwd { .. } => "fwd"@,
            Node::Typedef { .. } => "typedef"@,
            Node::Volatile { .. } => "volatile"@,
            Node::Const { .. } => "const"@,
            Node::Restrict { .. } => "restrict"@,
            Node::Func { .. } => "func"@,
            Node::FuncProto => "func-proto"@,
            Node::Var { .. } => "var"@,
            Node::Datasec => "datasec"@,
            Node::Float { .. } => "float"@,
            Node::DeclTag { .. } => "decl-tag"@,
            Node::TypeTag { .. } => "type-tag"@,
            Node::Enum64 { .. } => "enum64"@,
        }
    }

    /// Whether a type descriptor can end in a node of this kind.
    pub open spec fn describable(self) -> bool {
        self is Void || self is Int || self is Float || self is Struct || self is Union
            || self is Fwd || self is Enum || self is Enum64 || self is FuncProto
    }
}

/// Representation of a type: one node of the graph.
#[derive(Clone, Copy, Debug, PartialEq, Eq, Structural)]
pub struct Type {
    pub t: Node,
}

impl Type {
    /// The id that the node chains to, if any.
    pub fn target(&self) -> (r: Option<u32>)
        ensures
            r == self.t.target(),
    {
        match self.t {
            Node::Ptr { target } => Some(target),
            Node::Array { elem, .. } => Some(elem),
            Node::Typedef { target } => Some(target),
            Node::Volatile { target } => Some(target),
            Node::Const { target } => Some(target),
            Node::Restrict { target } => Some(target),
            Node::Func { target } => Some(target),
            Node::Var { target } => Some(target),
            Node::DeclTag { target } => Some(target),
            Node::TypeTag { target } => Some(target),
            _ => None,
        }
    }

    /// The short tag of the node's kind, as used in synthetic names.
    pub fn kind_name(&self) -> (r: &'static str)
        ensures
            r@ == self.t.tag(),
    {
        match self.t {
            Node::Void => "void",
            Node::Int { .. } => "int",
            Node::Ptr { .. } => "ptr",
            Node::Array { .. } => "array",
            Node::Struct { .. } => "struct",
            Node::Union { .. } => "union",
            Node::Enum { .. } => "enum",
            Node::Fwd { .. } => "fwd",
            Node::Typedef { .. } => "typedef",
            Node::Volatile { .. } => "volatile",
            Node::Const { .. } => "const",
            Node::Restrict { .. } => "restrict",
            Node::Func { .. } => "func",
            Node::FuncProto => "func-proto",
            Node::Var { .. } => "var",
            Node::Datasec => "datasec",
            Node::Float { .. } => "float",
            Node::DeclTag { .. } => "decl-tag",
            Node::TypeTag { .. } => "type-tag",
            Node::Enum64 { .. } => "enum64",
        }
    }

    pub fn is_typedef(&self) -> (r: bool)
        ensures
            r == (self.t is Typedef),
    {
        matches!(self.t, Node::Typedef { .. })
    }

    pub fn is_func(&self) -> (r: bool)
        ensures
            r == (self.t is FuncProto),
    {
        matches!(self.t, Node::FuncProto)
    }

    /// Whether the node is a base type: void, an integer or a float.
    pub open spec fn base(self) -> bool {
        self.t is Void || self.t is Int || self.t is Float
    }

    /// Whether the node is an enumeration of either width.
    pub open spec fn enumeration(self) -> bool {
        self.t is Enum || self.t is Enum64
    }

    /// Whether the node is a struct or a union.
    pub open spec fn user(self) -> bool {
        self.t is Struct || self.t is Union
    }

    pub fn is_base(&self) -> (r: bool)
        ensures
            r == self.base(),
    {
        matches!(self.t, Node::Void | Node::Int { .. } | Node::Float { .. })
    }

    pub fn is_enum(&self) -> (r: bool)
        ensures
            r == self.enumeration(),
    {
        matches!(self.t, Node::Enum { .. } | Node::Enum64 { .. })
    }

    pub fn is_user(&self) -> (r: bool)
        ensures
            r == self.user(),
    {
        matches!(self.t, Node::Struct { .. } | Node::Union { .. })
    }

    pub fn is_struct(&self) -> (r: bool)
        ensures
            r == (self.t is Struct),
    {
        matches!(self.t, Node::Struct { .. })
    }

    pub fn is_fwd(&self) -> (r: bool)
        ensures
            r == (self.t is Fwd),
    {
        matches!(self.t, Node::Fwd { .. })
    }

    pub fn is_fwd_struct(&self) -> (r: bool)
        ensures
            r == (self.t matches Node::Fwd { is_union } && !is_union),
    {
        match self.t {
            Node::Fwd { is_union } => !is_union,
            _ => false,
        }
    }

    pub fn is_fwd_union(&self) -> (r: bool)
        ensures
            r == (self.t matches Node::Fwd { is_union } && is_union),
    {
        match self.t {
            Node::Fwd { is_union } => is_union,
            _ => false,
        }
    }

    pub fn is_union(&self) -> (r: bool)
        ensures
            r == (self.t is Union),
    {
        matches!(self.t, Node::Union { .. })
    }

    /// Signedness of the node, for the kinds that have one.
    pub open spec fn signedness(self) -> Option<bool> {
        match self.t {
            Node::Int { signed, .. } => Some(signed),
            Node::Enum { signed, .. } => Some(signed),
            Node::Enum64 { signed, .. } => Some(signed),
            Node::Void => Some(false),
            Node::Ptr { .. } => Some(false),
            Node::Float { .. } => Some(true),
            _ => None,
        }
    }

    /// Size in bytes of the node, for the kinds that have one.
    pub open spec fn byte_size(self) -> Option<usize> {
        match self.t {
            Node::Int { size, .. } => Some(size),
            Node::Enum { size, .. } => Some(size),
            Node::Union { size } => Some(size),
            Node::Struct { size } => Some(size),
            Node::Float { size } => Some(size),
            Node::Enum64 { size, .. } => Some(size),
            _ => None,
        }
    }

    pub fn signed(&self) -> (r: Option<bool>)
        ensures
            r == self.signedness(),
    {
        match self.t {
            Node::Int { signed, .. } => Some(signed),
            Node::Enum { signed, .. } => Some(signed),
            Node::Enum64 { signed, .. } => Some(signed),
            Node::Void => Some(false),
            Node::Ptr { .. } => Some(false),
            Node::Float { .. } => Some(true),
            _ => None,
        }
    }

    pub fn size(&self) -> (r: Option<usize>)
        ensures
            r == self.byte_size(),
    {
        match self.t {
            Node::Int { size, .. } => Some(size),
            Node::Enum { size, .. } => Some(size),
            Node::Union { size } => Some(size),
            Node::Struct { size } => Some(size),
            Node::Float { size } => Some(size),
            Node::Enum64 { size, .. } => Some(size),
            _ => None,
        }
    }
}

/// A _relevant_ node that may be encountered on the way to the terminal node.
///
/// The qualifier nodes `restrict`, `volatile`, and `const` are not considered
/// relevant for profile generation.
#[derive(Clone, Copy, Debug, PartialEq, Eq, Structural)]
pub enum ResolutionPathNode {
    Pointer,
    Array(u64),
    Typedef(Id),
}

impl ResolutionPathNode {
    /// Array and pointer nodes are indirections.
    pub open spec fn indirection(self) -> bool {
        !(self is Typedef)
    }

    /// Returns true iff this node is an indirection.
    pub fn is_indirection(&self) -> (r: bool)
        ensures
            r == self.indirection(),
    {
        !matches!(self, ResolutionPathNode::Typedef(_))
    }
}

/// What a walk records when it visits node `id` of kind `n`.
pub open spec fn recorded(n: Node, id: Id) -> Seq<ResolutionPathNode> {
    match n {
        Node::Array { len, .. } => seq![ResolutionPathNode::Array(len as u64)],
        Node::Ptr { .. } => seq![ResolutionPathNode::Pointer],
        Node::Typedef { .. } => seq![ResolutionPathNode::Typedef(id)],
        _ => Seq::empty(),
    }
}

/// Whether some entry of the path is a pointer or an array.
pub open spec fn path_has_indirections(p: Seq<ResolutionPathNode>) -> bool {
    exists|i: int| 0 <= i < p.len() && (#[trigger] p[i]).indirection()
}

/// The typedef that names what the path leads to: the first typedef after
/// which the path holds no pointer or array any more.
pub open spec fn path_naming_typedef(p: Seq<ResolutionPathNode>) -> Option<Id>
    decreases p.len(),
{
    if p.len() == 0 {
        None
    } else {
        match p.last() {
            ResolutionPathNode::Typedef(id) => match path_naming_typedef(p.drop_last()) {
                Some(earlier) => Some(earlier),
                None => Some(id),
            },
            _ => None,
        }
    }
}

/// A type together with its id.
#[derive(Clone, Copy, Debug, PartialEq, Eq, Structural)]
pub struct TypeEx {
    pub t: Type,
    pub id: Id,
}

/// A path through the type graph that ends at a terminal node.
#[derive(Debug)]
pub struct ResolutionPath(VecDeque<ResolutionPathNode>);

impl View for ResolutionPath {
    type V = Seq<ResolutionPathNode>;

    closed spec fn view(&self) -> Seq<ResolutionPathNode> {
        self.0@
    }
}

impl ResolutionPath {
    pub fn new() -> (r: Self)
        ensures
            r@ == Seq::<ResolutionPathNode>::empty(),
    {
        ResolutionPath(VecDeque::new())
    }

    /// Number of entries.
    pub fn len(&self) -> (r: usize)
        ensures
            r == self@.len(),
    {
        self.0.len()
    }

    /// The entry at position `i`.
    pub fn node(&self, i: usize) -> (r: ResolutionPathNode)
        requires
            i < self@.len(),
        ensures
            r == self@[i as int],
    {
        self.0[i]
    }

    /// Removes and returns the first node in the resolution path.
    pub fn pop_node(&mut self) -> (r: Option<ResolutionPathNode>)
        ensures
            old(self)@.len() == 0 ==> r is None && final(self)@ == old(self)@,
            old(self)@.len() > 0 ==> r == Some(old(self)@[0]) && final(self)@ == old(
                self,
            )@.drop_first(),
    {
        let r = self.0.pop_front();
        assert(old(self)@.len() > 0 ==> self@ =~= old(self)@.drop_first());
        r
    }

    /// Adds what the node records to the end of the resolution path.
    pub fn record_node(&mut self, tx: &TypeEx)
        ensures
            final(self)@ == old(self)@ + recorded(tx.t.t, tx.id),
    {
        match tx.t.t {
            Node::Array { len, .. } => self.0.push_back(ResolutionPathNode::Array(len as u64)),
            Node::Ptr { .. } => self.0.push_back(ResolutionPathNode::Pointer),
            Node::Typedef { .. } => self.0.push_back(ResolutionPathNode::Typedef(tx.id)),
            _ => (),
        }
        assert(self@ =~= old(self)@ + recorded(tx.t.t, tx.id));
    }

    /// Returns true iff this resolution path contains indirections.
    pub fn has_indirections(&self) -> (r: bool)
        ensures
            r == path_has_indirections(self@),
    {
        let n = self.0.len();
        let mut i: usize = 0;
        while i < n
            invariant
                n == self@.len(),
                i <= n,
                forall|j: int| 0 <= j < i ==> !(#[trigger] self@[j]).indirection(),
            decreases n - i,
        {
            if self.0[i].is_indirection() {
                return true;
            }
            i = i + 1;
        }
        false
    }

    /// Returns the first typedef that has no more indirections on its path to
    /// the terminal node.
    pub fn naming_typedef(&self) -> (r: Option<Id>)
        ensures
            r == path_naming_typedef(self@),
    {
        let n = self.0.len();
        let mut i: usize = 0;
        let mut res: Option<Id> = None;
        while i < n
            invariant
                n == self@.len(),
                i <= n,
                res == path_naming_typedef(self@.subrange(0, i as int)),
            decreases n - i,
        {
            proof {
                assert(self@.subrange(0, i + 1).drop_last() =~= self@.subrange(0, i as int));
            }
            res = match self.0[i] {
                ResolutionPathNode::Typedef(id) => match res {
                    Some(earlier) => Some(earlier),
                    None => Some(id),
                },
                _ => None,
            };
            i = i + 1;
        }
        assert(self@.subrange(0, n as int) =~= self@);
        res
    }
}

/// A type together with its path to the terminal node.
#[derive(Debug)]
pub struct ResolvedType {
    pub path: ResolutionPath,
    pub tx: TypeEx,
}

/// Resolved typedefs.
pub struct Typedefs {
    /// Map from typedef nodes to the terminal nodes that they resolve to.
    /// Including the resolution path.
    pub fw: HashMap<u32, ResolvedType>,
    /// Map from terminal nodes to the typedef nodes that resolve to them, in
    /// ascending order. Without resolution path.
    pub bk: HashMap<u32, Vec<Id>>,
}

/// The categories that a profile sorts the nodes into; typedefs only give
/// names.
#[derive(Clone, Copy, Debug, PartialEq, Eq, Structural)]
pub enum Category {
    Base,
    Enum,
    User,
    Typedef,
    Other,
}


/// Member of a struct or union type.
#[derive(Debug)]
pub struct Member {
    /// The name found in the string table; empty if there is none.
    pub name: String,
    /// Offset of the name in the string table.
    pub name_off: u32,
    /// Id of the member's declared type.
    pub type_id: u32,
    /// Offset of the member in bits.
    pub bit_offset: u32,
    /// Width in bits if the owner encodes bitfield widths.
    pub bitfield_size: Option<u32>,
    /// Position of the member in its owner.
    pub idx: u64,
}

impl Member {
    /// The display name: the name from the string table, or a name made from
    /// the member's position if that is empty.
    pub open spec fn display_name(&self) -> Seq<char> {
        if self.name@.len() > 0 {
            self.name@
        } else {
            "unnamed_member_"@ + decimal(self.idx as nat)
        }
    }

    /// The bitfield description of a member that is a bitfield.
    pub open spec fn bitfield(&self) -> Option<BitfieldInfo> {
        match self.bitfield_size {
            Some(s) => if s != 0 {
                Some(
                    BitfieldInfo {
                        position: (self.bit_offset % 8) as u8,
                        length: (s % 256) as u8,
                    },
                )
            } else {
                None
            },
            None => None,
        }
    }

    /// Returns the name of this member.
    pub fn name(&self) -> (r: String)
        ensures
            r@ == self.display_name(),
    {
        if self.name.as_str().unicode_len() > 0 {
            self.name.clone()
        } else {
            numbered("unnamed_member_", self.idx)
        }
    }

    /// Returns true iff the member is a bitfield.
    pub fn is_bitfield(&self) -> (r: bool)
        ensures
            r == (self.bitfield() is Some),
    {
        match self.bitfield_size {
            Some(s) => s != 0,
            None => false,
        }
    }

    /// Returns true iff the member is unnamed.
    pub fn is_anon(&self) -> (r: bool)
        ensures
            r == (self.name_off == 0),
    {
        self.name_off == 0
    }

    /// Returns the extended type of this member.
    pub fn get_tx(&self, btf: &Btf) -> (r: TypeEx)
        requires
            self.type_id < btf@.len(),
        ensures
            r.id == Id(self.type_id),
            r.t == btf@[self.type_id as int].t,
    {
        TypeEx { t: btf.nodes[self.type_id as usize].t, id: Id(self.type_id) }
    }

    /// Returns the offset of the member in bytes.
    pub fn byte_offset(&self) -> (r: u64)
        ensures
            r == self.bit_offset / 8,
    {
        (self.bit_offset / 8) as u64
    }

    /// Returns extra information about bitfield members: the position of the
    /// first bit within its byte, and the width, for every member whose owner
    /// encodes widths.
    pub fn bitfield_info(&self) -> (r: Option<BitfieldInfo>)
        ensures
            match self.bitfield_size {
                Some(s) => r == Some(
                    BitfieldInfo {
                        position: (self.bit_offset % 8) as u8,
                        length: (s % 256) as u8,
                    },
                ),
                None => r is None,
            },
    {
        match self.bitfield_size {
            Some(s) => Some(
                BitfieldInfo { position: (self.bit_offset % 8) as u8, length: (s % 256) as u8 },
            ),
            None => None,
        }
    }
}

/// One named value of an enumeration.
#[derive(Debug)]
pub struct Variant {
    /// The name found in the string table, if one was found.
    pub name: Option<String>,
    pub value: EnumValue,
}

impl Variant {
    /// The name of the variant as text; empty if none was found.
    pub open spec fn label(&self) -> Seq<char> {
        match self.name {
            Some(s) => s@,
            None => Seq::empty(),
        }
    }
}

/// What the graph holds for one id: the node, its name in the string table
/// (empty if it has none), and the members or variants that it owns.
#[derive(Debug)]
pub struct Entry {
    pub t: Type,
    pub name: String,
    pub members: Vec<Member>,
    pub variants: Vec<Variant>,
}

impl Entry {
    /// The variants of the node if it is an enum.
    pub fn as_enum(&self) -> (r: Option<&Vec<Variant>>)
        ensures
            match r {
                Some(v) => self.t.enumeration() && *v == self.variants,
                None => !self.t.enumeration(),
            },
    {
        if self.t.is_enum() {
            Some(&self.variants)
        } else {
            None
        }
    }

    /// The members of the node if it is a struct or a union.
    pub fn as_has_members(&self) -> (r: Option<&Vec<Member>>)
        ensures
            match r {
                Some(m) => self.t.user() && *m == self.members,
                None => !self.t.user(),
            },
    {
        if self.t.is_user() {
            Some(&self.members)
        } else {
            None
        }
    }
}

/// The node that `id` chains to, if `id` is a node that chains to a node of
/// the graph.
pub open spec fn next(g: Seq<Entry>, id: int) -> Option<int> {
    if 0 <= id < g.len() {
        match g[id].t.t.target() {
            Some(t) => if (t as int) < g.len() {
                Some(t as int)
            } else {
                None
            },
            None => None,
        }
    } else {
        None
    }
}

/// Whether the walk from `id` ends after at most `fuel` hops.
pub open spec fn settles(g: Seq<Entry>, id: int, fuel: nat) -> bool
    decreases fuel,
{
    match next(g, id) {
        None => true,
        Some(t) => fuel > 0 && settles(g, t, (fuel - 1) as nat),
    }
}

/// The node at which the walk from `id` stands after at most `fuel` hops.
pub open spec fn terminal(g: Seq<Entry>, id: int, fuel: nat) -> int
    decreases fuel,
{
    match next(g, id) {
        None => id,
        Some(t) => if fuel == 0 {
            id
        } else {
            terminal(g, t, (fuel - 1) as nat)
        },
    }
}

/// What the walk from `id` records in at most `fuel` hops, nearest first.
pub open spec fn path(g: Seq<Entry>, id: int, fuel: nat) -> Seq<ResolutionPathNode>
    decreases fuel,
{
    recorded(g[id].t.t, Id(id as u32)) + match next(g, id) {
        None => Seq::empty(),
        Some(t) => if fuel == 0 {
            Seq::empty()
        } else {
            path(g, t, (fuel - 1) as nat)
        },
    }
}

/// The terminal node of `id`.
pub open spec fn root(g: Seq<Entry>, id: int) -> int {
    terminal(g, id, g.len())
}

/// The resolution path of `id`.
pub open spec fn route(g: Seq<Entry>, id: int) -> Seq<ResolutionPathNode> {
    path(g, id, g.len())
}

/// What is asked of node `td` if it is a typedef: its walk ends, and if it
/// renames a node, that is, reaches its terminal node without passing a
/// pointer or an array, it has a name.
pub open spec fn typedef_ok(g: Seq<Entry>, td: int) -> bool {
    g[td].t.t is Typedef ==> settles(g, td, g.len()) && (!path_has_indirections(route(g, td))
        ==> g[td].name@.len() > 0)
}

pub open spec fn typedefs_ok(g: Seq<Entry>) -> bool {
    forall|td: int| 0 <= td < g.len() ==> #[trigger] typedef_ok(g, td)
}

/// Member `i` of node `id` knows its position; its type is a node of the
/// graph from which the walk ends, at a terminal node that a type descriptor
/// can end in; and the typedef that names its type, if one does, has a name.
pub open spec fn member_ok(g: Seq<Entry>, id: int, i: int) -> bool {
    let m = g[id].members@[i];
    &&& m.idx == i
    &&& m.type_id < g.len()
    &&& settles(g, m.type_id as int, g.len())
    &&& g[root(g, m.type_id as int)].t.t.describable()
    &&& path_naming_typedef(route(g, m.type_id as int)) matches Some(td) ==> g[td.0 as int].name@.len()
        > 0
}

pub open spec fn members_ok(g: Seq<Entry>) -> bool {
    forall|id: int, i: int|
        0 <= id < g.len() && 0 <= i < g[id].members@.len() ==> #[trigger] member_ok(g, id, i)
}

/// Variant `i` of node `id` has a name.
pub open spec fn variant_ok(g: Seq<Entry>, id: int, i: int) -> bool {
    g[id].variants@[i].name is Some
}

pub open spec fn variants_ok(g: Seq<Entry>) -> bool {
    forall|id: int, i: int|
        0 <= id < g.len() && 0 <= i < g[id].variants@.len() ==> #[trigger] variant_ok(g, id, i)
}

/// What makes a sequence of entries a type graph that the library works on:
/// the node with id 0 is void, and the typedefs, the members and the variants
/// are such as the profile is made of. Nothing is asked of nodes that no
/// typedef and no member leads to.
pub open spec fn graph_wf(g: Seq<Entry>) -> bool {
    &&& 0 < g.len() <= u32::MAX
    &&& g[0].t.t is Void
    &&& typedefs_ok(g)
    &&& members_ok(g)
    &&& variants_ok(g)
}

/// The terminal node of a walk is a node of the graph at which no further hop
/// starts.
pub proof fn lemma_terminal(g: Seq<Entry>, id: int, k: nat)
    requires
        0 <= id < g.len(),
        settles(g, id, k),
    ensures
        0 <= terminal(g, id, k) < g.len(),
        next(g, terminal(g, id, k)) is None,
    decreases k,
{
    match next(g, id) {
        None => {},
        Some(t) => {
            lemma_terminal(g, t, (k - 1) as nat);
        },
    }
}

/// Every typedef that a walk records is a typedef node of the graph.
pub proof fn lemma_path_typedefs(g: Seq<Entry>, id: int, k: nat)
    requires
        0 <= id < g.len(),
        id <= u32::MAX,
    ensures
        forall|i: int|
            0 <= i < path(g, id, k).len() ==> (#[trigger] path(g, id, k)[i] matches ResolutionPathNode::Typedef(
                td,
            ) ==> td.0 < g.len() && g[td.0 as int].t.t is Typedef),
    decreases k,
{
    match next(g, id) {
        None => {},
        Some(t) => {
            if k > 0 {
                lemma_path_typedefs(g, t, (k - 1) as nat);
            }
        },
    }
}

/// The naming typedef of a path is one of the typedefs on it.
pub proof fn lemma_naming_on_path(p: Seq<ResolutionPathNode>)
    ensures
        path_naming_typedef(p) matches Some(td) ==> exists|i: int|
            0 <= i < p.len() && #[trigger] p[i] == ResolutionPathNode::Typedef(td),
    decreases p.len(),
{
    if p.len() > 0 {
        lemma_naming_on_path(p.drop_last());
        match p.last() {
            ResolutionPathNode::Typedef(id) => {
                match path_naming_typedef(p.drop_last()) {
                    Some(earlier) => {
                        let i = choose|i: int|
                            0 <= i < p.drop_last().len() && #[trigger] p.drop_last()[i]
                                == ResolutionPathNode::Typedef(earlier);
                        assert(p[i] == ResolutionPathNode::Typedef(earlier));
                    },
                    None => {
                        assert(p[p.len() - 1] == ResolutionPathNode::Typedef(id));
                    },
                }
            },
            _ => {},
        }
    }
}

/// Whether two entries hold the same node, name, members and variants.
pub open spec fn mirrors(a: Entry, b: Entry) -> bool {
    &&& a.t == b.t
    &&& a.name@ == b.name@
    &&& a.members@ == b.members@
    &&& a.variants@ == b.variants@
}

/// Whether two graphs hold the same at each id.
pub open spec fn same_graph(a: Seq<Entry>, b: Seq<Entry>) -> bool {
    &&& a.len() == b.len()
    &&& forall|i: int| 0 <= i < a.len() ==> mirrors(#[trigger] a[i], b[i])
}

/// Walks in graphs that hold the same go the same way.
pub proof fn lemma_same_walk(a: Seq<Entry>, b: Seq<Entry>, id: int, k: nat)
    requires
        same_graph(a, b),
    ensures
        next(a, id) == next(b, id),
        settles(a, id, k) == settles(b, id, k),
        terminal(a, id, k) == terminal(b, id, k),
        0 <= id < a.len() ==> path(a, id, k) == path(b, id, k),
    decreases k,
{
    if 0 <= id < a.len() {
        assert(mirrors(a[id], b[id]));
    }
    match next(a, id) {
        None => {},
        Some(t) => {
            if k > 0 {
                lemma_same_walk(a, b, t, (k - 1) as nat);
            }
        },
    }
}

/// Graphs that hold the same are well-formed together.
pub proof fn lemma_same_wf(a: Seq<Entry>, b: Seq<Entry>)
    requires
        same_graph(a, b),
        graph_wf(a),
    ensures
        graph_wf(b),
{
    assert(mirrors(a[0], b[0]));
    assert forall|td: int| 0 <= td < b.len() implies #[trigger] typedef_ok(b, td) by {
        assert(mirrors(a[td], b[td]));
        assert(typedef_ok(a, td));
        lemma_same_walk(a, b, td, a.len());
    }
    assert forall|id: int, i: int|
        0 <= id < b.len() && 0 <= i < b[id].members@.len() implies #[trigger] member_ok(
        b,
        id,
        i,
    ) by {
        assert(mirrors(a[id], b[id]));
        assert(member_ok(a, id, i));
        let m = a[id].members@[i];
        let start = m.type_id as int;
        lemma_same_walk(a, b, start, a.len());
        lemma_terminal(a, start, a.len());
        assert(mirrors(a[root(a, start)], b[root(a, start)]));
        lemma_path_typedefs(a, start, a.len());
        lemma_naming_on_path(route(a, start));
        match path_naming_typedef(route(a, start)) {
            Some(td) => {
                assert(mirrors(a[td.0 as int], b[td.0 as int]));
            },
            None => {},
        }
    }
    assert forall|id: int, i: int|
        0 <= id < b.len() && 0 <= i < b[id].variants@.len() implies #[trigger] variant_ok(
        b,
        id,
        i,
    ) by {
        assert(mirrors(a[id], b[id]));
        assert(variant_ok(a, id, i));
    }
}

/// The name of node `id` in the string table, if it has one.
pub open spec fn strtab(g: Seq<Entry>, id: int) -> Option<Seq<char>> {
    if 0 <= id < g.len() && !(g[id].t.t is Void) && !(g[id].t.t is FuncProto) && g[id].name@.len()
        > 0 {
        Some(g[id].name@)
    } else {
        None
    }
}

/// The name that stands for nodes without one: made of the kind and the id.
pub open spec fn synthetic_name(n: Node, id: int) -> Seq<char> {
    "unnamed_"@ + n.tag() + "_"@ + decimal(id as nat)
}

/// Why a type graph could not be had, or a query on it failed.
#[derive(Clone, Copy, Debug, PartialEq, Eq, Structural)]
pub enum BtfError {
    /// The buffer is neither a type section nor an ELF file.
    UnknownFormat,
    /// The ELF file has no type section.
    MissingSection,
    /// The ELF file could not be parsed.
    InvalidElf,
    /// The type section of the ELF file lies outside the file.
    SectionOutOfBounds,
    /// The type section could not be parsed.
    InvalidSection,
    /// The graph refers to what it does not hold, or runs in a circle.
    Malformed,
    /// No node has this id.
    NoSuchType,
    /// Nodes of this kind have no entry in the string table.
    NoStrtabEntry,
    /// The node has no name.
    NoName,
}

/// Representation of a type section.
pub struct Btf {
    endian: Endian,
    raw: Vec<u8>,
    name: String,
    nodes: Vec<Entry>,
}

impl View for Btf {
    type V = Seq<Entry>;

    closed spec fn view(&self) -> Seq<Entry> {
        self.nodes@
    }
}

fn walk(nodes: &Vec<Entry>, start: u32) -> (r: ResolvedType)
    requires
        start < nodes@.len(),
        settles(nodes@, start as int, nodes@.len()),
    ensures
        r.path@ == route(nodes@, start as int),
        r.tx.id.0 == root(nodes@, start as int),
        r.fits(nodes@),
{
    let ghost g = nodes@;
    let ghost mut k: nat = g.len();
    let mut cur: u32 = start;
    let mut path = ResolutionPath::new();
    loop
        invariant
            g == nodes@,
            cur < g.len(),
            settles(g, cur as int, k),
            path@ + self::path(g, cur as int, k) == route(g, start as int),
            terminal(g, cur as int, k) == root(g, start as int),
        decreases k,
    {
        let t = nodes[cur as usize].t;
        let tx = TypeEx { t, id: Id(cur) };
        let ghost before = path@;
        path.record_node(&tx);
        let nx = match t.target() {
            Some(nx) => if (nx as usize) < nodes.len() {
                Some(nx)
            } else {
                None
            },
            None => None,
        };
        match nx {
            Some(nx) => {
                proof {
                    assert(next(g, cur as int) == Some(nx as int));
                    assert(path@ + self::path(g, nx as int, (k - 1) as nat) =~= before + self::path(
                        g,
                        cur as int,
                        k,
                    ));
                    k = (k - 1) as nat;
                }
                cur = nx;
            },
            None => {
                proof {
                    assert(next(g, cur as int) is None);
                    assert(path@ =~= before + self::path(g, cur as int, k));
                    lemma_path_typedefs(g, start as int, g.len());
                }
                return ResolvedType { path, tx };
            },
        }
    }
}

fn check_settles(nodes: &Vec<Entry>, start: u32) -> (r: bool)
    requires
        start < nodes@.len(),
    ensures
        r == settles(nodes@, start as int, nodes@.len()),
{
    let ghost g = nodes@;
    let mut k: usize = nodes.len();
    let mut cur: u32 = start;
    loop
        invariant
            g == nodes@,
            cur < g.len(),
            k <= g.len(),
            settles(g, cur as int, k as nat) == settles(g, start as int, g.len()),
        decreases k,
    {
        let nx = match nodes[cur as usize].t.target() {
            Some(nx) => if (nx as usize) < nodes.len() {
                Some(nx)
            } else {
                None
            },
            None => None,
        };
        match nx {
            Some(nx) => {
                assert(next(g, cur as int) == Some(nx as int));
                if k == 0 {
                    return false;
                }
                k = k - 1;
                cur = nx;
            },
            None => {
                assert(next(g, cur as int) is None);
                return true;
            },
        }
    }
}

fn describable(t: &Type) -> (r: bool)
    ensures
        r == t.t.describable(),
{
    t.is_base() || t.is_user() || t.is_fwd() || t.is_enum() || t.is_func()
}

fn check_members(nodes: &Vec<Entry>, id: usize) -> (r: bool)
    requires
        id < nodes@.len(),
        nodes@.len() <= u32::MAX,
    ensures
        r == (forall|i: int| 0 <= i < nodes@[id as int].members@.len() ==> #[trigger] member_ok(
            nodes@,
            id as int,
            i,
        )),
{
    let members = &nodes[id].members;
    let mut i: usize = 0;
    while i < members.len()
        invariant
            id < nodes@.len(),
            nodes@.len() <= u32::MAX,
            members == nodes@[id as int].members,
            i <= members@.len(),
            forall|j: int| 0 <= j < i ==> #[trigger] member_ok(nodes@, id as int, j),
        decreases members@.len() - i,
    {
        let m = &members[i];
        if m.idx != i as u64 || m.type_id as usize >= nodes.len() {
            assert(!member_ok(nodes@, id as int, i as int));
            return false;
        }
        if !check_settles(nodes, m.type_id) {
            assert(!member_ok(nodes@, id as int, i as int));
            return false;
        }
        let rt = walk(nodes, m.type_id);
        if !describable(&rt.tx.t) {
            assert(!member_ok(nodes@, id as int, i as int));
            return false;
        }
        match rt.path.naming_typedef() {
            Some(td) => {
                proof {
                    lemma_naming_on_path(rt.path@);
                }
                if nodes[td.0 as usize].name.as_str().unicode_len() == 0 {
                    assert(!member_ok(nodes@, id as int, i as int));
                    return false;
                }
            },
            None => {},
        }
        i = i + 1;
    }
    true
}

fn check_variants(nodes: &Vec<Entry>, id: usize) -> (r: bool)
    requires
        id < nodes@.len(),
    ensures
        r == (forall|i: int| 0 <= i < nodes@[id as int].variants@.len() ==> #[trigger] variant_ok(
            nodes@,
            id as int,
            i,
        )),
{
    let variants = &nodes[id].variants;
    let mut i: usize = 0;
    while i < variants.len()
        invariant
            id < nodes@.len(),
            variants == nodes@[id as int].variants,
            i <= variants@.len(),
            forall|j: int| 0 <= j < i ==> #[trigger] variant_ok(nodes@, id as int, j),
        decreases variants@.len() - i,
    {
        if variants[i].name.is_none() {
            assert(!variant_ok(nodes@, id as int, i as int));
            return false;
        }
        i = i + 1;
    }
    true
}

fn check_typedef(nodes: &Vec<Entry>, id: usize) -> (r: bool)
    requires
        id < nodes@.len(),
        nodes@.len() <= u32::MAX,
    ensures
        r == typedef_ok(nodes@, id as int),
{
    if !nodes[id].t.is_typedef() {
        return true;
    }
    if !check_settles(nodes, id as u32) {
        return false;
    }
    let rt = walk(nodes, id as u32);
    rt.path.has_indirections() || nodes[id].name.as_str().unicode_len() > 0
}

fn check_graph(nodes: &Vec<Entry>) -> (r: bool)
    ensures
        r == graph_wf(nodes@),
{
    if nodes.len() == 0 || nodes.len() > 0xFFFF_FFFF {
        return false;
    }
    if !matches!(nodes[0].t.t, Node::Void) {
        return false;
    }
    let n = nodes.len();
    let mut id: usize = 0;
    while id < n
        invariant
            n == nodes@.len(),
            n <= u32::MAX,
            id <= n,
            forall|j: int| 0 <= j < id ==> #[trigger] typedef_ok(nodes@, j),
            forall|j: int, i: int|
                0 <= j < id && 0 <= i < nodes@[j].members@.len() ==> #[trigger] member_ok(
                    nodes@,
                    j,
                    i,
                ),
            forall|j: int, i: int|
                0 <= j < id && 0 <= i < nodes@[j].variants@.len() ==> #[trigger] variant_ok(
                    nodes@,
                    j,
                    i,
                ),
        decreases n - id,
    {
        if !check_typedef(nodes, id) {
            return false;
        }
        if !check_members(nodes, id) {
            return false;
        }
        if !check_variants(nodes, id) {
            return false;
        }
        id = id + 1;
    }
    true
}

impl Btf {
    /// Whether the graph is one that the library works on.
    pub open spec fn wf(&self) -> bool {
        graph_wf(self@)
    }

    /// The byte order of the section that the graph was read from.
    pub closed spec fn byte_order(&self) -> Endian {
        self.endian
    }

    /// The bytes that the graph was read from.
    pub closed spec fn raw_bytes(&self) -> Seq<u8> {
        self.raw@
    }

    /// The name of the source of the graph.
    pub closed spec fn source_name(&self) -> Seq<char> {
        self.name@
    }

    /// Makes a type graph of the given entries, the entry at position `i`
    /// being the node with id `i`. Fails if they do not form a graph that the
    /// library works on.
    pub fn new(endian: Endian, name: String, raw: Vec<u8>, nodes: Vec<Entry>) -> (r: Result<
        Btf,
        BtfError,
    >)
        ensures
            match r {
                Ok(b) => graph_wf(nodes@) && b@ == nodes@ && b.byte_order() == endian
                    && b.source_name() == name@ && b.raw_bytes() == raw@,
                Err(e) => !graph_wf(nodes@) && e == BtfError::Malformed,
            },
    {
        if check_graph(&nodes) {
            Ok(Btf { endian, raw, name, nodes })
        } else {
            Err(BtfError::Malformed)
        }
    }

    /// Returns the byte order of the type section.
    pub fn endian(&self) -> (r: Endian)
        ensures
            r == self.byte_order(),
    {
        self.endian
    }

    /// Returns the bytes that the type information was obtained from.
    pub fn raw(&self) -> (r: &Vec<u8>)
        ensures
            r@ == self.raw_bytes(),
    {
        &self.raw
    }

    /// Returns the name of the file that the type information was obtained
    /// from.
    pub fn name(&self) -> (r: &String)
        ensures
            r@ == self.source_name(),
    {
        &self.name
    }

    /// Number of nodes.
    pub fn len(&self) -> (r: usize)
        ensures
            r == self@.len(),
    {
        self.nodes.len()
    }

    /// The entry of the node with the given id.
    pub fn entry(&self, id: Id) -> (r: &Entry)
        requires
            id.0 < self@.len(),
        ensures
            *r == self@[id.0 as int],
    {
        &self.nodes[id.0 as usize]
    }

    /// Returns the type with the given `id`.
    pub fn get_type_by_id(&self, id: Id) -> (r: Result<Type, BtfError>)
        ensures
            match r {
                Ok(t) => id.0 < self@.len() && t == self@[id.0 as int].t,
                Err(e) => id.0 >= self@.len() && e == BtfError::NoSuchType,
            },
    {
        if (id.0 as usize) < self.nodes.len() {
            Ok(self.nodes[id.0 as usize].t)
        } else {
            Err(BtfError::NoSuchType)
        }
    }

    /// Returns the string table entry of the type with `id`.
    ///
    /// Fails if there is no such type, if types of its kind have no entry, or
    /// if the entry is empty.
    pub fn get_strtab_entry_by_id(&self, id: Id) -> (r: Result<String, BtfError>)
        ensures
            match r {
                Ok(s) => strtab(self@, id.0 as int) == Some(s@),
                Err(e) => strtab(self@, id.0 as int) is None && e == (if id.0 >= self@.len() {
                    BtfError::NoSuchType
                } else if self@[id.0 as int].t.t is Void || self@[id.0 as int].t.t is FuncProto {
                    BtfError::NoStrtabEntry
                } else {
                    BtfError::NoName
                }),
            },
    {
        if (id.0 as usize) >= self.nodes.len() {
            return Err(BtfError::NoSuchType);
        }
        let e = &self.nodes[id.0 as usize];
        if matches!(e.t.t, Node::Void | Node::FuncProto) {
            Err(BtfError::NoStrtabEntry)
        } else if e.name.as_str().unicode_len() == 0 {
            Err(BtfError::NoName)
        } else {
            Ok(e.name.clone())
        }
    }

    /// Whether the walk from the given node ends: it does unless the chain of
    /// references from the node runs in a circle. The walks from the typedefs
    /// and from the types of the members of a graph end.
    pub fn chain_ends(&self, id: Id) -> (r: bool)
        requires
            id.0 < self@.len(),
        ensures
            r == settles(self@, id.0 as int, self@.len()),
    {
        check_settles(&self.nodes, id.0)
    }

    /// Starts at the given node in the type graph and walks to the terminal
    /// node, recording the pointers, arrays and typedefs on the way. The walk
    /// from the node must end.
    pub fn resolve_type_chain(&self, tx: TypeEx) -> (r: ResolvedType)
        requires
            self.wf(),
            tx.id.0 < self@.len(),
            settles(self@, tx.id.0 as int, self@.len()),
        ensures
            r.path@ == route(self@, tx.id.0 as int),
            r.tx.id.0 == root(self@, tx.id.0 as int),
            r.fits(self@),
    {
        walk(&self.nodes, tx.id.0)
    }
}


/// The category of a node.
pub open spec fn category(t: Type) -> Category {
    if t.base() {
        Category::Base
    } else if t.enumeration() {
        Category::Enum
    } else if t.user() {
        Category::User
    } else if t.t is Typedef {
        Category::Typedef
    } else {
        Category::Other
    }
}

/// The ids below `n` of the nodes of category `c`, ascending.
pub open spec fn ids_of(g: Seq<Entry>, n: int, c: Category) -> Seq<Id>
    decreases n,
{
    if n <= 0 {
        Seq::empty()
    } else {
        let rest = ids_of(g, n - 1, c);
        if category(g[n - 1].t) == c {
            rest.push(Id((n - 1) as u32))
        } else {
            rest
        }
    }
}

/// The ids below `n` of the typedefs whose terminal node is `t`, ascending.
pub open spec fn typedefs_of(g: Seq<Entry>, t: int, n: int) -> Seq<Id>
    decreases n,
{
    if n <= 0 {
        Seq::empty()
    } else {
        let rest = typedefs_of(g, t, n - 1);
        if g[n - 1].t.t is Typedef && root(g, n - 1) == t {
            rest.push(Id((n - 1) as u32))
        } else {
            rest
        }
    }
}

/// Whether typedef `td` is another name for node `id`: it resolves to `id`
/// without passing a pointer or an array.
pub open spec fn renames(g: Seq<Entry>, td: int, id: int) -> bool {
    g[td].t.t is Typedef && root(g, td) == id && !path_has_indirections(route(g, td))
}

/// The names of the typedefs below `n` that are other names for `id`, in
/// ascending order of the typedefs' ids.
pub open spec fn alias_names(g: Seq<Entry>, id: int, n: int) -> Seq<Seq<char>>
    decreases n,
{
    if n <= 0 {
        Seq::empty()
    } else {
        let rest = alias_names(g, id, n - 1);
        if renames(g, n - 1, id) {
            rest.push(g[n - 1].name@)
        } else {
            rest
        }
    }
}

/// The names of those of the typedefs `tds` that pass no pointer or array.
pub open spec fn aliases_among(g: Seq<Entry>, tds: Seq<Id>) -> Seq<Seq<char>>
    decreases tds.len(),
{
    if tds.len() == 0 {
        Seq::empty()
    } else {
        let rest = aliases_among(g, tds.drop_last());
        let td = tds.last().0 as int;
        if !path_has_indirections(route(g, td)) {
            rest.push(g[td].name@)
        } else {
            rest
        }
    }
}

/// The typedefs that resolve to `t` are typedef nodes below `n` whose terminal
/// node is `t`.
pub proof fn lemma_typedefs_of(g: Seq<Entry>, t: int, n: int)
    requires
        n <= g.len() <= u32::MAX,
    ensures
        forall|j: int|
            0 <= j < typedefs_of(g, t, n).len() ==> {
                let td = (#[trigger] typedefs_of(g, t, n)[j]).0 as int;
                td < n && g[td].t.t is Typedef && root(g, td) == t
            },
    decreases n,
{
    if n > 0 {
        lemma_typedefs_of(g, t, n - 1);
    }
}

/// Picking the aliases out of the typedefs that resolve to `id` gives the
/// alias names of `id`.
pub proof fn lemma_aliases(g: Seq<Entry>, id: int, n: int)
    requires
        n <= g.len() <= u32::MAX,
    ensures
        aliases_among(g, typedefs_of(g, id, n)) == alias_names(g, id, n),
    decreases n,
{
    if n > 0 {
        lemma_aliases(g, id, n - 1);
        if g[n - 1].t.t is Typedef && root(g, n - 1) == id {
            let rest = typedefs_of(g, id, n - 1);
            assert(rest.push(Id((n - 1) as u32)).drop_last() =~= rest);
        }
    }
}

/// The name of a node itself: its name in the string table, or else the
/// synthetic name.
pub open spec fn primary_name(g: Seq<Entry>, id: int) -> Seq<char> {
    match strtab(g, id) {
        Some(s) => s,
        None => synthetic_name(g[id].t.t, id),
    }
}

/// All names of node `id`: for void the fixed name; else its own name and,
/// if asked for, the names of the typedefs that rename it.
pub open spec fn names_for(g: Seq<Entry>, id: int, aliases: bool) -> Seq<Seq<char>> {
    if g[id].t.t is Void {
        seq!["void"@]
    } else if aliases {
        seq![primary_name(g, id)] + alias_names(g, id, g.len() as int)
    } else {
        seq![primary_name(g, id)]
    }
}

/// The name by which a descriptor refers to the terminal node `id` that was
/// reached over the path `p`.
pub open spec fn shown_name(g: Seq<Entry>, p: Seq<ResolutionPathNode>, id: int) -> Seq<char> {
    if g[id].t.t is FuncProto {
        "function"@
    } else if g[id].t.t is Void {
        "void"@
    } else {
        match strtab(g, id) {
            Some(s) => s,
            None => match path_naming_typedef(p) {
                Some(td) => g[td.0 as int].name@,
                None => synthetic_name(g[id].t.t, id),
            },
        }
    }
}

/// The views of a sequence of strings.
pub open spec fn views(v: Seq<String>) -> Seq<Seq<char>> {
    Seq::new(v.len(), |i: int| v[i]@)
}

impl ResolvedType {
    /// Whether this is a type of the graph: the terminal node and the
    /// typedefs of the path are nodes of `g`.
    pub open spec fn fits(&self, g: Seq<Entry>) -> bool {
        &&& self.tx.id.0 < g.len()
        &&& self.tx.t == g[self.tx.id.0 as int].t
        &&& forall|i: int|
            0 <= i < self.path@.len() ==> (#[trigger] self.path@[i] matches ResolutionPathNode::Typedef(
                td,
            ) ==> td.0 < g.len() && g[td.0 as int].t.t is Typedef)
    }

    /// Returns a name for this type.
    ///
    /// For named types it returns the name. For unnamed types it tries to find
    /// a typedef and then falls back to a unique unnamed naming scheme.
    pub fn name(&self, btf: &Btf) -> (r: String)
        requires
            btf.wf(),
            self.fits(btf@),
        ensures
            r@ == shown_name(btf@, self.path@, self.tx.id.0 as int),
    {
        if self.tx.t.is_func() {
            String::from_str("function")
        } else if matches!(self.tx.t.t, Node::Void) {
            String::from_str("void")
        } else {
            match btf.get_strtab_entry_by_id(self.tx.id) {
                Ok(name) => name,
                Err(_) => match self.path.naming_typedef() {
                    Some(td) => {
                        proof {
                            lemma_naming_on_path(self.path@);
                        }
                        btf.nodes[td.0 as usize].name.clone()
                    },
                    None => synthetic(&self.tx.t, self.tx.id),
                },
            }
        }
    }
}

fn synthetic(t: &Type, id: Id) -> (r: String)
    ensures
        r@ == synthetic_name(t.t, id.0 as int),
{
    let mut s = String::from_str("unnamed_");
    s.append(t.kind_name());
    s.append("_");
    let d = crate::text::decimal_string(id.0 as u64);
    s.append(d.as_str());
    s
}

impl Typedefs {
    /// Whether the two maps hold what the first `n` nodes of the graph give:
    /// for each typedef its resolution, and for each terminal node the
    /// typedefs that resolve to it.
    pub open spec fn models_upto(&self, g: Seq<Entry>, n: int) -> bool {
        &&& forall|td: u32|
            self.fw@.contains_key(td) <==> (td < n && (#[trigger] g[td as int]).t.t is Typedef)
        &&& forall|td: u32| #[trigger]
            self.fw@.contains_key(td) ==> {
                &&& self.fw@[td].path@ == route(g, td as int)
                &&& self.fw@[td].tx.id.0 == root(g, td as int)
                &&& self.fw@[td].fits(g)
            }
        &&& forall|t: u32|
            self.bk@.contains_key(t) <==> (#[trigger] typedefs_of(g, t as int, n)).len() > 0
        &&& forall|t: u32| #[trigger]
            self.bk@.contains_key(t) ==> self.bk@[t]@ == typedefs_of(g, t as int, n)
    }

    /// Whether the two maps hold what the graph gives.
    pub open spec fn models(&self, g: Seq<Entry>) -> bool {
        self.models_upto(g, g.len() as int)
    }
}

/// A partitioning of the types into the categories that a profile
/// distinguishes between, each in ascending order of the ids: user types,
/// enums, base types; plus a processed view of all typedefs.
pub type VolIdSets = (Vec<Id>, Vec<Id>, Vec<Id>, Typedefs);

impl Btf {
    /// Returns all names of the type with `id`.
    ///
    /// Optionally, uses `typedefs` to derive alternative names for the type.
    /// Only typedefs that reach the type without indirections lead to
    /// alternative names.
    pub fn get_names_by_id(&self, id: Id, typedefs: Option<&Typedefs>) -> (r: Result<
        Vec<String>,
        BtfError,
    >)
        requires
            self.wf(),
            typedefs matches Some(td) ==> td.models(self@),
        ensures
            match r {
                Ok(names) => id.0 < self@.len() && views(names@) == names_for(
                    self@,
                    id.0 as int,
                    typedefs is Some,
                ),
                Err(e) => id.0 >= self@.len() && e == BtfError::NoSuchType,
            },
    {
        broadcast use vstd::std_specs::hash::group_hash_axioms;

        let ghost g = self@;
        if (id.0 as usize) >= self.nodes.len() {
            return Err(BtfError::NoSuchType);
        }
        let t = self.nodes[id.0 as usize].t;
        let mut names: Vec<String> = Vec::new();
        if matches!(t.t, Node::Void) {
            names.push(String::from_str(t.kind_name()));
            assert(views(names@) =~= names_for(g, id.0 as int, typedefs is Some));
            return Ok(names);
        }
        let primary = match self.get_strtab_entry_by_id(id) {
            Ok(name) => name,
            Err(_) => synthetic(&t, id),
        };
        names.push(primary);
        assert(views(names@) =~= seq![primary_name(g, id.0 as int)]);
        let Some(tds) = typedefs else {
            return Ok(names);
        };
        proof {
            lemma_aliases(g, id.0 as int, g.len() as int);
        }
        let Some(tds_bk) = tds.bk.get(&id.0) else {
            assert(typedefs_of(g, id.0 as int, g.len() as int).len() == 0);
            assert(views(names@) =~= names_for(g, id.0 as int, true));
            return Ok(names);
        };
        let ghost all = typedefs_of(g, id.0 as int, g.len() as int);
        assert(tds_bk@ == all);
        proof {
            lemma_typedefs_of(g, id.0 as int, g.len() as int);
        }
        let mut i: usize = 0;
        while i < tds_bk.len()
            invariant
                g == self@,
                self.wf(),
                tds.models(g),
                tds_bk@ == all,
                i <= all.len(),
                forall|j: int| 0 <= j < all.len() ==> tds.fw@.contains_key(#[trigger] all[j].0),
                views(names@) == seq![primary_name(g, id.0 as int)] + aliases_among(
                    g,
                    all.subrange(0, i as int),
                ),
            decreases all.len() - i,
        {
            let td = tds_bk[i];
            let ghost before = views(names@);
            proof {
                assert(all.subrange(0, i + 1).drop_last() =~= all.subrange(0, i as int));
                assert(tds.fw@.contains_key(all[i as int].0));
            }
            let rt = tds.fw.get(&td.0);
            match rt {
                Some(rt) => {
                    if !rt.path.has_indirections() {
                        names.push(self.nodes[td.0 as usize].name.clone());
                        assert(views(names@) =~= before.push(g[td.0 as int].name@));
                    }
                },
                None => {},
            }
            assert(views(names@) =~= seq![primary_name(g, id.0 as int)] + aliases_among(
                g,
                all.subrange(0, i + 1),
            ));
            i = i + 1;
        }
        assert(all.subrange(0, all.len() as int) =~= all);
        Ok(names)
    }
}


impl Btf {
    /// Returns a partitioning of the types into the categories that a profile
    /// distinguishes between as well as a processed view of all typedefs.
    ///
    /// A profile distinguishes between user types, enum types, and base
    /// types.
    pub fn gen_vol_id_sets(&self) -> (r: Result<VolIdSets, BtfError>)
        requires
            self.wf(),
        ensures
            r matches Ok(sets) && {
                &&& sets.0@ == ids_of(self@, self@.len() as int, Category::User)
                &&& sets.1@ == ids_of(self@, self@.len() as int, Category::Enum)
                &&& sets.2@ == ids_of(self@, self@.len() as int, Category::Base)
                &&& sets.3.models(self@)
            },
    {
        broadcast use vstd::std_specs::hash::group_hash_axioms;

        let ghost g = self@;
        let mut basic_ids: Vec<Id> = Vec::new();
        let mut enum_ids: Vec<Id> = Vec::new();
        let mut user_ids: Vec<Id> = Vec::new();
        let mut tds = Typedefs { fw: HashMap::new(), bk: HashMap::new() };
        let n = self.nodes.len();
        let mut i: usize = 0;
        while i < n
            invariant
                g == self@,
                self.wf(),
                n == g.len(),
                i <= n,
                user_ids@ == ids_of(g, i as int, Category::User),
                enum_ids@ == ids_of(g, i as int, Category::Enum),
                basic_ids@ == ids_of(g, i as int, Category::Base),
                tds.models_upto(g, i as int),
            decreases n - i,
        {
            let t = self.nodes[i].t;
            let id = Id(i as u32);
            let ghost old_tds = tds;
            if t.is_base() {
                basic_ids.push(id);
            } else if t.is_enum() {
                enum_ids.push(id);
            } else if t.is_user() {
                user_ids.push(id);
            } else if t.is_typedef() {
                assert(typedef_ok(g, i as int));
                let rt = self.resolve_type_chain(TypeEx { t, id });
                let target = rt.tx.id.0;
                let mut list = match tds.bk.remove(&target) {
                    Some(list) => list,
                    None => Vec::new(),
                };
                list.push(id);
                tds.bk.insert(target, list);
                tds.fw.insert(id.0, rt);
                proof {
                    assert forall|k: u32|
                        tds.bk@.contains_key(k) <==> (#[trigger] typedefs_of(
                            g,
                            k as int,
                            i + 1,
                        )).len() > 0 by {
                        assert(old_tds.bk@.contains_key(k) <==> typedefs_of(g, k as int, i as int).len()
                            > 0);
                    }
                    assert forall|k: u32| #[trigger]
                        tds.bk@.contains_key(k) implies tds.bk@[k]@ == typedefs_of(
                        g,
                        k as int,
                        i + 1,
                    ) by {
                        assert(old_tds.bk@.contains_key(k) <==> typedefs_of(g, k as int, i as int).len()
                            > 0);
                        if k == target {
                            assert(tds.bk@[k]@ =~= typedefs_of(g, k as int, i + 1));
                        }
                    }
                }
            }
            proof {
                if !(t.t is Typedef) {
                    assert forall|k: u32|
                        tds.bk@.contains_key(k) <==> (#[trigger] typedefs_of(
                            g,
                            k as int,
                            i + 1,
                        )).len() > 0 by {
                        assert(old_tds.bk@.contains_key(k) <==> typedefs_of(g, k as int, i as int).len()
                            > 0);
                    }
                }
            }
            i = i + 1;
        }
        Ok((user_ids, enum_ids, basic_ids, tds))
    }
}


/// Whether the walk from `id` passes nothing but qualifiers and ends, within
/// `k` hops, at a node that is no pointer, array or typedef.
pub open spec fn only_qualifiers(g: Seq<Entry>, id: int, k: nat) -> bool
    decreases k,
{
    match next(g, id) {
        None => recorded(g[id].t.t, Id(id as u32)).len() == 0,
        Some(t) => (g[id].t.t is Const || g[id].t.t is Volatile || g[id].t.t is Restrict) && k > 0
            && only_qualifiers(g, t, (k - 1) as nat),
    }
}

/// Qualifiers leave no trace: a walk that passes nothing but `const`,
/// `volatile` and `restrict` nodes on its way to the terminal node records
/// an empty path.
pub proof fn lemma_qualifiers_leave_no_trace(g: Seq<Entry>, id: int, k: nat)
    requires
        only_qualifiers(g, id, k),
    ensures
        path(g, id, k) == Seq::<ResolutionPathNode>::empty(),
    decreases k,
{
    match next(g, id) {
        None => {
            assert(path(g, id, k) =~= Seq::<ResolutionPathNode>::empty());
        },
        Some(t) => {
            lemma_qualifiers_leave_no_trace(g, t, (k - 1) as nat);
            assert(path(g, id, k) =~= Seq::<ResolutionPathNode>::empty());
        },
    }
}

/// The alias names of a node are the names of the typedefs that rename it.
pub proof fn lemma_alias_names(g: Seq<Entry>, id: int, n: int, name: Seq<char>)
    ensures
        alias_names(g, id, n).contains(name) <==> exists|td: int|
            0 <= td < n && #[trigger] renames(g, td, id) && g[td].name@ == name,
    decreases n,
{
    if n > 0 {
        lemma_alias_names(g, id, n - 1, name);
        let rest = alias_names(g, id, n - 1);
        if rest.contains(name) {
            let i = choose|i: int| 0 <= i < rest.len() && rest[i] == name;
            assert(alias_names(g, id, n)[i] == name);
        }
        if renames(g, n - 1, id) {
            assert(alias_names(g, id, n)[rest.len() as int] == g[n - 1].name@);
            if alias_names(g, id, n).contains(name) {
                let i = choose|i: int|
                    0 <= i < alias_names(g, id, n).len() && alias_names(g, id, n)[i] == name;
                if i < rest.len() {
                    assert(rest[i] == name);
                }
            }
        }
    }
}

/// A typedef that directly names a node at which no hop starts, such as a
/// struct, renames that node: its name is one of the names of the node.
pub proof fn lemma_direct_typedef_renames(g: Seq<Entry>, td: int, target: int)
    requires
        0 <= td < g.len() <= u32::MAX,
        g[td].t.t matches Node::Typedef { target: t } && t == target,
        0 <= target < g.len(),
        next(g, target) is None,
        !(g[target].t.t is Ptr || g[target].t.t is Array || g[target].t.t is Void),
    ensures
        renames(g, td, target),
        names_for(g, target, true).contains(g[td].name@),
{
    let n = g.len();
    assert(next(g, td) == Some(target));
    assert(terminal(g, td, n) == terminal(g, target, (n - 1) as nat));
    assert(path(g, target, (n - 1) as nat) =~= recorded(g[target].t.t, Id(target as u32)));
    let p = path(g, td, n);
    assert(p =~= seq![ResolutionPathNode::Typedef(Id(td as u32))] + recorded(
        g[target].t.t,
        Id(target as u32),
    ));
    assert forall|i: int| 0 <= i < p.len() implies !(#[trigger] p[i]).indirection() by {}
    assert(root(g, td) == target);
    assert(!path_has_indirections(route(g, td)));
    assert(renames(g, td, target));
    lemma_alias_names(g, target, n as int, g[td].name@);
    let names = names_for(g, target, true);
    let aliases = alias_names(g, target, n as int);
    assert(aliases.contains(g[td].name@));
    let i = choose|i: int| 0 <= i < aliases.len() && aliases[i] == g[td].name@;
    assert(names[i + 1] == g[td].name@);
}

/// A typedef that names a pointer renames no node: it gives no node a name.
pub proof fn lemma_pointer_typedef_renames_nothing(g: Seq<Entry>, td: int, id: int)
    requires
        0 <= td < g.len(),
        g[td].t.t matches Node::Typedef { target: t } && t < g.len() && (g[t as int].t.t is Ptr
            || g[t as int].t.t is Array),
    ensures
        !renames(g, td, id),
{
    let n = g.len();
    let t = g[td].t.t->Typedef_target as int;
    assert(next(g, td) == Some(t));
    let p = path(g, td, n);
    assert(recorded(g[t].t.t, Id(t as u32)).len() == 1);
    assert(path(g, t, (n - 1) as nat)[0] == recorded(g[t].t.t, Id(t as u32))[0]);
    assert(p[1] == path(g, t, (n - 1) as nat)[0]);
    assert(p[1].indirection());
}

/// The partition is disjoint and covers the graph: the ids of a category
/// are the ids of the nodes of that category and of no other node.
pub proof fn lemma_partition(g: Seq<Entry>, n: int, c: Category, i: int)
    requires
        n <= g.len() <= u32::MAX,
    ensures
        ids_of(g, n, c).contains(Id(i as u32)) && 0 <= i <= u32::MAX <==> 0 <= i < n && category(
            g[i].t,
        ) == c,
    decreases n,
{
    if n > 0 {
        lemma_partition(g, n - 1, c, i);
        let rest = ids_of(g, n - 1, c);
        let all = ids_of(g, n, c);
        if rest.contains(Id(i as u32)) {
            let x = choose|x: int| 0 <= x < rest.len() && rest[x] == Id(i as u32);
            assert(all[x] == Id(i as u32));
        }
        if category(g[n - 1].t) == c {
            assert(all[rest.len() as int] == Id((n - 1) as u32));
        }
        if all.contains(Id(i as u32)) {
            let x = choose|x: int| 0 <= x < all.len() && all[x] == Id(i as u32);
            if x < rest.len() {
                assert(rest[x] == Id(i as u32));
            }
        }
    }
}

/// The typedefs that resolve to a node are the typedef nodes whose terminal
/// node it is.
pub proof fn lemma_typedefs_of_holds(g: Seq<Entry>, t: int, n: int, td: int)
    requires
        n <= g.len() <= u32::MAX,
        0 <= td <= u32::MAX,
    ensures
        typedefs_of(g, t, n).contains(Id(td as u32)) <==> td < n && g[td].t.t is Typedef && root(
            g,
            td,
        ) == t,
    decreases n,
{
    if n > 0 {
        lemma_typedefs_of_holds(g, t, n - 1, td);
        let rest = typedefs_of(g, t, n - 1);
        let all = typedefs_of(g, t, n);
        if rest.contains(Id(td as u32)) {
            let x = choose|x: int| 0 <= x < rest.len() && rest[x] == Id(td as u32);
            assert(all[x] == Id(td as u32));
        }
        if g[n - 1].t.t is Typedef && root(g, n - 1) == t {
            assert(all[rest.len() as int] == Id((n - 1) as u32));
        }
        if all.contains(Id(td as u32)) {
            let x = choose|x: int| 0 <= x < all.len() && all[x] == Id(td as u32);
            if x < rest.len() {
                assert(rest[x] == Id(td as u32));
            }
        }
    }
}

/// The two maps of the typedefs agree: the terminal node that the forward
/// map gives a typedef has an entry in the backward map, and that entry
/// holds the typedef.
pub proof fn lemma_index_agrees(typedefs: Typedefs, g: Seq<Entry>, td: u32)
    requires
        g.len() <= u32::MAX,
        typedefs.models(g),
        typedefs.fw@.contains_key(td),
    ensures
        typedefs.bk@.contains_key(typedefs.fw@[td].tx.id.0),
        typedefs.bk@[typedefs.fw@[td].tx.id.0]@.contains(Id(td)),
{
    let t = typedefs.fw@[td].tx.id.0;
    assert(g[td as int].t.t is Typedef);
    lemma_typedefs_of_holds(g, t as int, g.len() as int, td as int);
    let list = typedefs_of(g, t as int, g.len() as int);
    assert(list.contains(Id(td)));
    assert(list.len() > 0);
    assert(typedefs.bk@.contains_key(t));
}

} // verus!
