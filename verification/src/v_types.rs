//! Types and functions to work with the types of a profile.
//!
//! The reoccurring pattern in this module is: a type that corresponds to a
//! definition of the profile schema, built from the part of the type graph
//! that holds what the definition needs.

use crate::btf;
use crate::btf::Entry;
use crate::btf::Member;
use crate::btf::Node;
use crate::btf::ResolutionPath;
use crate::btf::ResolutionPathNode;
use crate::btf::Type;
use crate::names::NameIndex;
use crate::names::NameMap;
use crate::names::Named;
use vstd::prelude::*;
use vstd::string::*;

verus! {

/// `type_descriptor` of the profile schema.
#[derive(Debug, PartialEq, Eq, Hash)]
pub enum TypeDescr {
    Array { count: u64, subtype: Box<TypeDescr> },
    Base { name: String },
    Bitfield { bit_position: u8, bit_length: u8, type_: Box<TypeDescr> },
    Enum { name: String },
    Function,
    Pointer { subtype: Box<TypeDescr> },
    Struct { name: String },
    Union { name: String },
}

/// A type descriptor as a mathematical value.
pub enum Descr {
    Array { count: u64, subtype: Box<Descr> },
    Base { name: Seq<char> },
    Bitfield { bit_position: u8, bit_length: u8, inner: Box<Descr> },
    Enum { name: Seq<char> },
    Function,
    Pointer { subtype: Box<Descr> },
    Struct { name: Seq<char> },
    Union { name: Seq<char> },
}

/// The mathematical value of a type descriptor.
pub open spec fn descr_of(d: TypeDescr) -> Descr
    decreases d,
{
    match d {
        TypeDescr::Array { count, subtype } => Descr::Array {
            count,
            subtype: Box::new(descr_of(*subtype)),
        },
        TypeDescr::Base { name } => Descr::Base { name: name@ },
        TypeDescr::Bitfield { bit_position, bit_length, type_ } => Descr::Bitfield {
            bit_position,
            bit_length,
            inner: Box::new(descr_of(*type_)),
        },
        TypeDescr::Enum { name } => Descr::Enum { name: name@ },
        TypeDescr::Function => Descr::Function,
        TypeDescr::Pointer { subtype } => Descr::Pointer { subtype: Box::new(descr_of(*subtype)) },
        TypeDescr::Struct { name } => Descr::Struct { name: name@ },
        TypeDescr::Union { name } => Descr::Union { name: name@ },
    }
}

impl View for TypeDescr {
    type V = Descr;

    open spec fn view(&self) -> Descr {
        descr_of(*self)
    }
}

impl Descr {
    /// The descriptor inside all array, pointer and bitfield wrappers.
    pub open spec fn leaf(self) -> Descr
        decreases self,
    {
        match self {
            Descr::Array { subtype, .. } => subtype.leaf(),
            Descr::Pointer { subtype } => subtype.leaf(),
            Descr::Bitfield { inner, .. } => inner.leaf(),
            _ => self,
        }
    }

    /// Number of bitfield wrappers in the descriptor.
    pub open spec fn bitfields(self) -> nat
        decreases self,
    {
        match self {
            Descr::Array { subtype, .. } => subtype.bitfields(),
            Descr::Pointer { subtype } => subtype.bitfields(),
            Descr::Bitfield { inner, .. } => 1 + inner.bitfields(),
            _ => 0,
        }
    }

    /// The name of a descriptor that names a type.
    pub open spec fn name(self) -> Option<Seq<char>> {
        match self {
            Descr::Base { name } => Some(name),
            Descr::Enum { name } => Some(name),
            Descr::Union { name } => Some(name),
            Descr::Struct { name } => Some(name),
            _ => None,
        }
    }

    /// The word for the kind of a descriptor that names a type.
    pub open spec fn kind(self) -> Option<Seq<char>> {
        match self {
            Descr::Base { .. } => Some(""@),
            Descr::Enum { .. } => Some("enum"@),
            Descr::Union { .. } => Some("union"@),
            Descr::Struct { .. } => Some("struct"@),
            _ => None,
        }
    }

    /// Whether the descriptor is a wrapper around another one.
    pub open spec fn is_wrapper(self) -> bool {
        self is Array || self is Pointer || self is Bitfield
    }
}

impl TypeDescr {
    pub fn new_void() -> (r: Self)
        ensures
            r@ == (Descr::Base { name: "void"@ }),
    {
        TypeDescr::Base { name: String::from_str("void") }
    }

    pub fn name(&self) -> (r: Option<&String>)
        ensures
            match r {
                Some(s) => self@.name() == Some(s@),
                None => self@.name() is None,
            },
    {
        match self {
            TypeDescr::Base { name } => Some(name),
            TypeDescr::Enum { name } => Some(name),
            TypeDescr::Union { name } => Some(name),
            TypeDescr::Struct { name } => Some(name),
            _ => None,
        }
    }

    pub fn kind(&self) -> (r: Option<&str>)
        ensures
            match r {
                Some(s) => self@.kind() == Some(s@),
                None => self@.kind() is None,
            },
    {
        match self {
            TypeDescr::Base { .. } => Some(""),
            TypeDescr::Enum { .. } => Some("enum"),
            TypeDescr::Union { .. } => Some("union"),
            TypeDescr::Struct { .. } => Some("struct"),
            _ => None,
        }
    }

    /// The descriptor inside all array, pointer and bitfield wrappers.
    pub fn resolve(&self) -> (r: &Self)
        ensures
            r@ == self@.leaf(),
            !r@.is_wrapper(),
        decreases self,
    {
        match self {
            TypeDescr::Array { subtype, .. } => subtype.resolve(),
            TypeDescr::Pointer { subtype } => subtype.resolve(),
            TypeDescr::Bitfield { type_, .. } => type_.resolve(),
            _ => self,
        }
    }

    /// Whether two descriptors describe the same.
    pub fn same(&self, other: &TypeDescr) -> (r: bool)
        ensures
            r == (self@ == other@),
        decreases self,
    {
        match (self, other) {
            (
                TypeDescr::Array { count: a, subtype: s },
                TypeDescr::Array { count: b, subtype: t },
            ) => *a == *b && s.same(t),
            (TypeDescr::Base { name: a }, TypeDescr::Base { name: b }) => *a == *b,
            (
                TypeDescr::Bitfield { bit_position: p, bit_length: l, type_: s },
                TypeDescr::Bitfield { bit_position: q, bit_length: m, type_: t },
            ) => *p == *q && *l == *m && s.same(t),
            (TypeDescr::Enum { name: a }, TypeDescr::Enum { name: b }) => *a == *b,
            (TypeDescr::Function, TypeDescr::Function) => true,
            (TypeDescr::Pointer { subtype: s }, TypeDescr::Pointer { subtype: t }) => s.same(t),
            (TypeDescr::Struct { name: a }, TypeDescr::Struct { name: b }) => *a == *b,
            (TypeDescr::Union { name: a }, TypeDescr::Union { name: b }) => *a == *b,
            _ => false,
        }
    }

    /// A copy of the descriptor.
    pub fn duplicate(&self) -> (r: Self)
        ensures
            r@ == self@,
        decreases self,
    {
        match self {
            TypeDescr::Array { count, subtype } => TypeDescr::Array {
                count: *count,
                subtype: Box::new(subtype.duplicate()),
            },
            TypeDescr::Base { name } => TypeDescr::Base { name: name.clone() },
            TypeDescr::Bitfield { bit_position, bit_length, type_ } => TypeDescr::Bitfield {
                bit_position: *bit_position,
                bit_length: *bit_length,
                type_: Box::new(type_.duplicate()),
            },
            TypeDescr::Enum { name } => TypeDescr::Enum { name: name.clone() },
            TypeDescr::Function => TypeDescr::Function,
            TypeDescr::Pointer { subtype } => TypeDescr::Pointer {
                subtype: Box::new(subtype.duplicate()),
            },
            TypeDescr::Struct { name } => TypeDescr::Struct { name: name.clone() },
            TypeDescr::Union { name } => TypeDescr::Union { name: name.clone() },
        }
    }
}

/// The descriptor of a terminal node `t` that goes by the name `name`.
pub open spec fn leaf_descr(t: Type, name: Seq<char>) -> Descr {
    match t.t {
        Node::Union { .. } => Descr::Union { name },
        Node::Struct { .. } => Descr::Struct { name },
        Node::Fwd { is_union } => if is_union {
            Descr::Union { name }
        } else {
            Descr::Struct { name }
        },
        Node::Enum { .. } => Descr::Enum { name },
        Node::Enum64 { .. } => Descr::Enum { name },
        Node::FuncProto => Descr::Function,
        _ => Descr::Base { name },
    }
}

/// The descriptor `inner` inside the wrappers that the path asks for: one
/// for each pointer and array, the first entry of the path outermost;
/// typedefs add nothing.
pub open spec fn wrap(p: Seq<ResolutionPathNode>, inner: Descr) -> Descr
    decreases p.len(),
{
    if p.len() == 0 {
        inner
    } else {
        match p[0] {
            ResolutionPathNode::Pointer => Descr::Pointer {
                subtype: Box::new(wrap(p.drop_first(), inner)),
            },
            ResolutionPathNode::Array(n) => Descr::Array {
                count: n,
                subtype: Box::new(wrap(p.drop_first(), inner)),
            },
            ResolutionPathNode::Typedef(_) => wrap(p.drop_first(), inner),
        }
    }
}

/// The terminal descriptor, inside a bitfield wrapper if `bf` describes one.
pub open spec fn innermost(bf: Option<btf::BitfieldInfo>, leaf: Descr) -> Descr {
    match bf {
        Some(b) => Descr::Bitfield {
            bit_position: b.position,
            bit_length: b.length,
            inner: Box::new(leaf),
        },
        None => leaf,
    }
}

/// The descriptor of the type of member `m` in the graph `g`.
pub open spec fn member_descr(g: Seq<Entry>, m: Member) -> Descr {
    let id = m.type_id as int;
    let end = btf::root(g, id);
    wrap(
        btf::route(g, id),
        innermost(m.bitfield(), leaf_descr(g[end].t, btf::shown_name(g, btf::route(g, id), end))),
    )
}

/// Wrappers leave the terminal descriptor and the number of bitfield
/// wrappers as they are.
pub proof fn lemma_wrap(p: Seq<ResolutionPathNode>, inner: Descr)
    ensures
        wrap(p, inner).leaf() == inner.leaf(),
        wrap(p, inner).bitfields() == inner.bitfields(),
    decreases p.len(),
{
    if p.len() > 0 {
        lemma_wrap(p.drop_first(), inner);
    }
}

/// The descriptor of a member holds exactly one bitfield wrapper if the
/// member is a bitfield, and none otherwise, however long the way to its
/// terminal node is; and the wrapper is the innermost one.
pub proof fn lemma_one_bitfield(g: Seq<Entry>, m: Member)
    ensures
        member_descr(g, m).bitfields() == (if m.bitfield() is Some {
            1nat
        } else {
            0nat
        }),
        member_descr(g, m).leaf() == leaf_descr(
            g[btf::root(g, m.type_id as int)].t,
            btf::shown_name(
                g,
                btf::route(g, m.type_id as int),
                btf::root(g, m.type_id as int),
            ),
        ),
        !member_descr(g, m).leaf().is_wrapper(),
{
    let id = m.type_id as int;
    let end = btf::root(g, id);
    let leaf = leaf_descr(g[end].t, btf::shown_name(g, btf::route(g, id), end));
    assert(leaf.bitfields() == 0);
    assert(leaf.leaf() == leaf);
    assert(innermost(m.bitfield(), leaf).leaf() == leaf);
    assert(innermost(m.bitfield(), leaf).bitfields() == (if m.bitfield() is Some {
        1nat
    } else {
        0nat
    }));
    lemma_wrap(btf::route(g, id), innermost(m.bitfield(), leaf));
}

/// Whether the type of member `m` ends in a forward declaration. The
/// descriptor of such a member names a struct or a union that the graph
/// need not define.
pub fn forward_declared(btf: &btf::Btf, m: &Member) -> (r: bool)
    requires
        btf.wf(),
        m.type_id < btf@.len(),
        btf::settles(btf@, m.type_id as int, btf@.len()),
    ensures
        r == (btf@[btf::root(btf@, m.type_id as int)].t.t is Fwd),
{
    btf.resolve_type_chain(m.get_tx(btf)).tx.t.is_fwd()
}

fn make_leaf(t: &Type, name: String) -> (r: TypeDescr)
    requires
        t.t.describable(),
    ensures
        r@ == leaf_descr(*t, name@),
{
    if t.is_union() {
        TypeDescr::Union { name }
    } else if t.is_struct() {
        TypeDescr::Struct { name }
    } else if t.is_fwd() {
        if t.is_fwd_struct() {
            TypeDescr::Struct { name }
        } else {
            TypeDescr::Union { name }
        }
    } else if t.is_enum() {
        TypeDescr::Enum { name }
    } else if t.is_base() {
        TypeDescr::Base { name }
    } else {
        TypeDescr::Function
    }
}

fn make_wrapped(path: &ResolutionPath, from: usize, inner: TypeDescr) -> (r: TypeDescr)
    requires
        from <= path@.len(),
    ensures
        r@ == wrap(path@.subrange(from as int, path@.len() as int), inner@),
    decreases path@.len() - from,
{
    let ghost rest = path@.subrange(from as int, path@.len() as int);
    if from == path.len() {
        inner
    } else {
        proof {
            assert(rest.drop_first() =~= path@.subrange(from + 1, path@.len() as int));
            assert(rest[0] == path@[from as int]);
        }
        match path.node(from) {
            ResolutionPathNode::Pointer => TypeDescr::Pointer {
                subtype: Box::new(make_wrapped(path, from + 1, inner)),
            },
            ResolutionPathNode::Array(n) => TypeDescr::Array {
                count: n,
                subtype: Box::new(make_wrapped(path, from + 1, inner)),
            },
            ResolutionPathNode::Typedef(_) => make_wrapped(path, from + 1, inner),
        }
    }
}

impl TypeDescr {
    /// The descriptor of the type of a member: its resolution path turned
    /// into wrappers around the terminal descriptor, which stands inside a
    /// bitfield wrapper if the member is a bitfield.
    pub fn of_member(btf: &btf::Btf, m: &Member) -> (r: TypeDescr)
        requires
            btf.wf(),
            m.type_id < btf@.len(),
            btf::settles(btf@, m.type_id as int, btf@.len()),
            btf@[btf::root(btf@, m.type_id as int)].t.t.describable(),
        ensures
            r@ == member_descr(btf@, *m),
    {
        let rt = btf.resolve_type_chain(m.get_tx(btf));
        let name = rt.name(btf);
        let leaf = make_leaf(&rt.tx.t, name);
        let inner = if m.is_bitfield() {
            match m.bitfield_info() {
                Some(b) => TypeDescr::Bitfield {
                    bit_position: b.position,
                    bit_length: b.length,
                    type_: Box::new(leaf),
                },
                None => leaf,
            }
        } else {
            leaf
        };
        let r = make_wrapped(&rt.path, 0, inner);
        assert(rt.path@.subrange(0, rt.path@.len() as int) =~= rt.path@);
        r
    }
}


/// Why a profile type could not be built.
#[derive(Clone, Copy, Debug, PartialEq, Eq, Structural)]
pub enum TypeError {
    /// The node is no base type.
    NotBase,
    /// The node is neither a struct nor a union.
    NotUser,
    /// No integer base type has the size and signedness of the enum.
    NoEnumBase,
}

#[derive(Clone, Copy, Debug, PartialEq, Eq, Structural)]
pub enum BaseKind {
    Void,
    Int,
    Float,
    Char,
    Bool,
}

/// The kind of a base type node.
pub open spec fn base_kind(t: Type) -> BaseKind {
    match t.t {
        Node::Void => BaseKind::Void,
        Node::Float { .. } => BaseKind::Float,
        Node::Int { is_char, is_bool, .. } => if is_char {
            BaseKind::Char
        } else if is_bool {
            BaseKind::Bool
        } else {
            BaseKind::Int
        },
        _ => BaseKind::Int,
    }
}

impl BaseKind {
    /// The kind of a base type node; fails for every other node.
    pub fn try_from(type_: &Type) -> (r: Result<BaseKind, TypeError>)
        ensures
            match r {
                Ok(k) => type_.base() && k == base_kind(*type_),
                Err(e) => !type_.base() && e == TypeError::NotBase,
            },
    {
        match type_.t {
            Node::Void => Ok(BaseKind::Void),
            Node::Float { .. } => Ok(BaseKind::Float),
            Node::Int { is_char, is_bool, .. } => {
                if is_char {
                    Ok(BaseKind::Char)
                } else if is_bool {
                    Ok(BaseKind::Bool)
                } else {
                    Ok(BaseKind::Int)
                }
            },
            _ => Err(TypeError::NotBase),
        }
    }
}

#[derive(Clone, Copy, Debug, PartialEq, Eq, Structural)]
pub enum Endian {
    Big,
    Little,
}

/// The byte order of a profile for that of a type section.
pub open spec fn endian_of(e: btf::Endian) -> Endian {
    match e {
        btf::Endian::Big => Endian::Big,
        btf::Endian::Little => Endian::Little,
    }
}

impl Endian {
    pub fn from(endian: &btf::Endian) -> (r: Endian)
        ensures
            r == endian_of(*endian),
    {
        match endian {
            btf::Endian::Big => Endian::Big,
            btf::Endian::Little => Endian::Little,
        }
    }
}

/// `element_base_type` of the profile schema.
#[derive(Clone, Copy, Debug, PartialEq, Eq, Structural)]
pub struct Base {
    pub size: u8,
    pub signed: bool,
    pub kind: BaseKind,
    pub endian: Endian,
}

/// The low eight bits of a size.
pub open spec fn low_byte(size: usize) -> u8 {
    (size % 256) as u8
}

/// The base type that a base type node gives.
pub open spec fn base_of(t: Type, e: btf::Endian) -> Base {
    Base {
        size: match t.byte_size() {
            Some(s) => low_byte(s),
            None => 0,
        },
        signed: match t.signedness() {
            Some(s) => s,
            None => false,
        },
        kind: base_kind(t),
        endian: endian_of(e),
    }
}

/// The base type named "pointer".
pub open spec fn pointer_base(e: Endian) -> Base {
    Base { size: 8, signed: false, kind: BaseKind::Int, endian: e }
}

impl Base {
    pub fn new_pointer(endian: Endian) -> (r: Self)
        ensures
            r == pointer_base(endian),
    {
        Base { size: 8, signed: false, kind: BaseKind::Int, endian }
    }

    /// The base type that the node of the context gives.
    pub fn from(ctx: BaseConstructionCtx) -> (r: Base)
        requires
            ctx.tx.t.base(),
        ensures
            r == base_of(ctx.tx.t, ctx.btf.byte_order()),
    {
        let size = match ctx.tx.t.size() {
            Some(s) => (s % 256) as u8,
            None => 0,
        };
        let signed = ctx.tx.t.signed().unwrap();
        let kind = BaseKind::try_from(&ctx.tx.t).unwrap();
        Base { size, signed, kind, endian: Endian::from(&ctx.btf.endian()) }
    }
}

/// Argument for constructing a base type.
pub struct BaseConstructionCtx<'a> {
    pub btf: &'a btf::Btf,
    pub tx: btf::TypeEx,
}

impl BaseConstructionCtx<'_> {
    pub fn construct(self) -> (r: Base)
        requires
            self.tx.t.base(),
        ensures
            r == base_of(self.tx.t, self.btf.byte_order()),
    {
        Base::from(self)
    }
}

#[derive(Clone, Copy, Debug, PartialEq, Eq, Structural)]
pub enum UserKind {
    Struct,
    Union,
    Class,
}

impl UserKind {
    pub fn as_str(&self) -> (r: &'static str)
        ensures
            r@ == (match self {
                UserKind::Struct => "struct"@,
                UserKind::Union => "union"@,
                UserKind::Class => "class"@,
            }),
    {
        match self {
            UserKind::Struct => "struct",
            UserKind::Union => "union",
            UserKind::Class => "class",
        }
    }

    /// The kind of a struct or union node; fails for every other node.
    pub fn try_from(t: &Type) -> (r: Result<UserKind, TypeError>)
        ensures
            match r {
                Ok(k) => t.user() && k == user_kind(*t),
                Err(e) => !t.user() && e == TypeError::NotUser,
            },
    {
        if t.is_struct() {
            Ok(UserKind::Struct)
        } else if t.is_union() {
            Ok(UserKind::Union)
        } else {
            Err(TypeError::NotUser)
        }
    }
}

/// The kind of a struct or union node.
pub open spec fn user_kind(t: Type) -> UserKind {
    if t.t is Union {
        UserKind::Union
    } else {
        UserKind::Struct
    }
}

/// `field` of the profile schema.
#[derive(Debug)]
pub struct UserField {
    pub t: TypeDescr,
    pub offset: u64,
    pub anon: bool,
}

/// Whether `f` is the field that member `m` gives.
pub open spec fn field_of(f: UserField, g: Seq<Entry>, m: Member) -> bool {
    &&& f.t@ == member_descr(g, m)
    &&& f.offset == m.bit_offset / 8
    &&& f.anon == (m.name_off == 0)
}

impl UserField {
    /// The field that a member gives.
    pub fn from(btf: &btf::Btf, m: &Member) -> (r: UserField)
        requires
            btf.wf(),
            m.type_id < btf@.len(),
            btf::settles(btf@, m.type_id as int, btf@.len()),
            btf@[btf::root(btf@, m.type_id as int)].t.t.describable(),
        ensures
            field_of(r, btf@, *m),
    {
        UserField { t: TypeDescr::of_member(btf, m), offset: m.byte_offset(), anon: m.is_anon() }
    }
}

/// The last of the first `n` members that goes by the name `k`.
pub open spec fn last_member(ms: Seq<Member>, n: int, k: Seq<char>) -> Option<int>
    decreases n,
{
    if n <= 0 {
        None
    } else if ms[n - 1].display_name() == k {
        Some(n - 1)
    } else {
        last_member(ms, n - 1, k)
    }
}

/// Whether `fm` holds the fields that the first `n` members give: one under
/// each member name, given by the last member of that name.
pub open spec fn fields_of(
    fm: Map<Seq<char>, UserField>,
    g: Seq<Entry>,
    ms: Seq<Member>,
    n: int,
) -> bool {
    forall|k: Seq<char>|
        (#[trigger] fm.contains_key(k) <==> last_member(ms, n, k) is Some) && (fm.contains_key(k)
            ==> field_of(fm[k], g, ms[last_member(ms, n, k).unwrap()]))
}

/// The fields of a user type by name.
#[derive(Debug)]
pub struct UserFields(pub NameMap<UserField>);

impl UserFields {
    /// The fields with their names, in the order of the names.
    pub fn iter(&self) -> (r: &Vec<Named<UserField>>)
        ensures
            r@ == self.0.entries@,
    {
        &self.0.entries
    }

    /// The fields of the struct or union of the context; fails for every
    /// other node.
    pub fn try_from(ctx: &UserConstructionCtx) -> (r: Result<UserFields, TypeError>)
        requires
            ctx.basic_ctx.btf.wf(),
            ctx.basic_ctx.tx.id.0 < ctx.basic_ctx.btf@.len(),
            ctx.basic_ctx.tx.t == ctx.basic_ctx.btf@[ctx.basic_ctx.tx.id.0 as int].t,
        ensures
            match r {
                Ok(f) => ctx.basic_ctx.tx.t.user() && f.0.wf() && fields_of(
                    f.0@,
                    ctx.basic_ctx.btf@,
                    ctx.basic_ctx.btf@[ctx.basic_ctx.tx.id.0 as int].members@,
                    ctx.basic_ctx.btf@[ctx.basic_ctx.tx.id.0 as int].members@.len() as int,
                ),
                Err(e) => !ctx.basic_ctx.tx.t.user() && e == TypeError::NotUser,
            },
    {
        let btf = ctx.basic_ctx.btf;
        let ghost g = btf@;
        let ghost id = ctx.basic_ctx.tx.id.0 as int;
        let members = match btf.entry(ctx.basic_ctx.tx.id).as_has_members() {
            Some(members) => members,
            None => {
                return Err(TypeError::NotUser);
            },
        };
        let mut fields: NameIndex<UserField> = NameIndex::new();
        let mut i: usize = 0;
        while i < members.len()
            invariant
                g == btf@,
                btf.wf(),
                0 <= id < g.len(),
                members@ == g[id].members@,
                i <= members@.len(),
                fields.wf(),
                fields_of(fields@, g, members@, i as int),
            decreases members@.len() - i,
        {
            let m = &members[i];
            assert(btf::member_ok(g, id, i as int));
            let f = UserField::from(btf, m);
            let ghost before = fields@;
            fields.put(m.name(), f);
            proof {
                assert forall|k: Seq<char>|
                    (#[trigger] fields@.contains_key(k) <==> last_member(members@, i + 1, k)
                        is Some) && (fields@.contains_key(k) ==> field_of(
                        fields@[k],
                        g,
                        members@[last_member(members@, i + 1, k).unwrap()],
                    )) by {
                    assert(before.contains_key(k) <==> last_member(members@, i as int, k) is Some);
                }
            }
            i = i + 1;
        }
        Ok(UserFields(fields.into_sorted()))
    }
}

/// `element_user_type` of the profile schema.
#[derive(Debug)]
pub struct User {
    pub kind: UserKind,
    pub size: u64,
    pub fields: UserFields,
}

pub struct UserConstructionCtx<'a> {
    pub basic_ctx: BaseConstructionCtx<'a>,
    pub typedefs: &'a btf::Typedefs,
}

/// Whether `u` is the user type that the struct or union `id` gives.
pub open spec fn user_of(u: User, g: Seq<Entry>, id: int) -> bool {
    &&& u.kind == user_kind(g[id].t)
    &&& g[id].t.byte_size() matches Some(s) && u.size == s
    &&& u.fields.0.wf()
    &&& fields_of(u.fields.0@, g, g[id].members@, g[id].members@.len() as int)
}

impl User {
    /// The user type that the struct or union of the context gives.
    pub fn from(ctx: UserConstructionCtx) -> (r: User)
        requires
            ctx.basic_ctx.btf.wf(),
            ctx.basic_ctx.tx.id.0 < ctx.basic_ctx.btf@.len(),
            ctx.basic_ctx.tx.t == ctx.basic_ctx.btf@[ctx.basic_ctx.tx.id.0 as int].t,
            ctx.basic_ctx.tx.t.user(),
        ensures
            user_of(r, ctx.basic_ctx.btf@, ctx.basic_ctx.tx.id.0 as int),
    {
        let kind = UserKind::try_from(&ctx.basic_ctx.tx.t).unwrap();
        let size = ctx.basic_ctx.tx.t.size().unwrap() as u64;
        let fields = UserFields::try_from(&ctx).unwrap();
        User { kind, size, fields }
    }
}

/// The last of the first `n` variants that goes by the name `k`.
pub open spec fn last_variant(vs: Seq<btf::Variant>, n: int, k: Seq<char>) -> Option<int>
    decreases n,
{
    if n <= 0 {
        None
    } else if vs[n - 1].label() == k {
        Some(n - 1)
    } else {
        last_variant(vs, n - 1, k)
    }
}

/// Whether `cm` holds the constants that the first `n` variants give: one
/// under each variant name, the value of the last variant of that name.
pub open spec fn constants_of(cm: Map<Seq<char>, i128>, vs: Seq<btf::Variant>, n: int) -> bool {
    forall|k: Seq<char>|
        (#[trigger] cm.contains_key(k) <==> last_variant(vs, n, k) is Some) && (cm.contains_key(k)
            ==> cm[k] == vs[last_variant(vs, n, k).unwrap()].value.0)
}

/// Whether `b` can stand under an enum of the given size and signedness.
pub open spec fn carries(b: Base, size: u8, signed: bool) -> bool {
    b.size == size && b.signed == signed && b.kind == BaseKind::Int
}

/// Whether the entry at position `i` is the first base type, in the order of
/// the names, that can stand under an enum of the given size and signedness.
pub open spec fn first_carrier(s: Seq<Named<Base>>, size: u8, signed: bool, i: int) -> bool {
    &&& 0 <= i < s.len()
    &&& carries(s[i].value, size, signed)
    &&& forall|j: int| 0 <= j < i ==> !carries(#[trigger] s[j].value, size, signed)
}

/// Whether some base type can stand under an enum of the given size and
/// signedness.
pub open spec fn has_carrier(s: Seq<Named<Base>>, size: u8, signed: bool) -> bool {
    exists|i: int| 0 <= i < s.len() && carries(#[trigger] s[i].value, size, signed)
}

/// The size that an enum node gives its profile entry.
pub open spec fn enum_size(t: Type) -> u8 {
    match t.byte_size() {
        Some(s) => low_byte(s),
        None => 0,
    }
}

/// The signedness of an enum node.
pub open spec fn enum_signed(t: Type) -> bool {
    match t.signedness() {
        Some(s) => s,
        None => false,
    }
}

/// `element_enum` of the profile schema.
#[derive(Debug)]
pub struct Enum {
    pub size: u8,
    pub base: String,
    pub constants: NameMap<i128>,
}

pub struct EnumConstructionCtx<'a> {
    pub basic_ctx: BaseConstructionCtx<'a>,
    pub base_types: &'a NameMap<Base>,
}

/// Whether `e` is the enum that the node `id` gives over the base types `s`.
pub open spec fn enum_of(e: Enum, g: Seq<Entry>, id: int, s: Seq<Named<Base>>) -> bool {
    &&& e.size == enum_size(g[id].t)
    &&& exists|i: int| #[trigger]
        first_carrier(s, enum_size(g[id].t), enum_signed(g[id].t), i) && e.base@ == s[i].name@
    &&& e.constants.wf()
    &&& constants_of(e.constants@, g[id].variants@, g[id].variants@.len() as int)
}

impl Enum {
    /// The enum that the node of the context gives. Its base is the first
    /// integer base type, in the order of the names, of the enum's size and
    /// signedness; without one there is no enum.
    pub fn from(ctx: EnumConstructionCtx) -> (r: Result<Enum, TypeError>)
        requires
            ctx.basic_ctx.tx.id.0 < ctx.basic_ctx.btf@.len(),
            ctx.basic_ctx.tx.t == ctx.basic_ctx.btf@[ctx.basic_ctx.tx.id.0 as int].t,
            ctx.basic_ctx.tx.t.enumeration(),
        ensures
            match r {
                Ok(e) => enum_of(
                    e,
                    ctx.basic_ctx.btf@,
                    ctx.basic_ctx.tx.id.0 as int,
                    ctx.base_types.entries@,
                ),
                Err(err) => err == TypeError::NoEnumBase && !has_carrier(
                    ctx.base_types.entries@,
                    enum_size(ctx.basic_ctx.tx.t),
                    enum_signed(ctx.basic_ctx.tx.t),
                ),
            },
    {
        let t = ctx.basic_ctx.tx.t;
        let size = (t.size().unwrap() % 256) as u8;
        let signed = t.signed().unwrap();
        let bases = &ctx.base_types.entries;
        let mut i: usize = 0;
        while i < bases.len()
            invariant
                i <= bases@.len(),
                forall|j: int| 0 <= j < i ==> !carries(#[trigger] bases@[j].value, size, signed),
            ensures
                i <= bases@.len(),
                forall|j: int| 0 <= j < i ==> !carries(#[trigger] bases@[j].value, size, signed),
                i < bases@.len() ==> carries(bases@[i as int].value, size, signed),
            decreases bases@.len() - i,
        {
            let b = &bases[i].value;
            if b.size == size && b.signed == signed && matches!(b.kind, BaseKind::Int) {
                break ;
            }
            i = i + 1;
        }
        if i >= bases.len() {
            return Err(TypeError::NoEnumBase);
        }
        assert(first_carrier(bases@, size, signed, i as int));
        let base = bases[i].name.clone();
        let variants = ctx.basic_ctx.btf.entry(ctx.basic_ctx.tx.id).as_enum().unwrap();
        let mut constants: NameIndex<i128> = NameIndex::new();
        let mut k: usize = 0;
        while k < variants.len()
            invariant
                k <= variants@.len(),
                constants.wf(),
                constants_of(constants@, variants@, k as int),
            decreases variants@.len() - k,
        {
            let v = &variants[k];
            let ghost before = constants@;
            let name = match &v.name {
                Some(s) => s.clone(),
                None => String::new(),
            };
            constants.put(name, v.value.value());
            proof {
                assert forall|x: Seq<char>|
                    (#[trigger] constants@.contains_key(x) <==> last_variant(variants@, k + 1, x)
                        is Some) && (constants@.contains_key(x) ==> constants@[x]
                        == variants@[last_variant(variants@, k + 1, x).unwrap()].value.0) by {
                    assert(before.contains_key(x) <==> last_variant(variants@, k as int, x) is Some);
                }
            }
            k = k + 1;
        }
        let constants = constants.into_sorted();
        proof {
            let t = ctx.basic_ctx.btf@[ctx.basic_ctx.tx.id.0 as int].t;
            assert(first_carrier(bases@, enum_size(t), enum_signed(t), i as int));
        }
        Ok(Enum { size, base, constants })
    }
}

} // verus!
