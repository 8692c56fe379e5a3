use btf2json::btf::Btf;
use btf2json::btf::Endian;
use btf2json::btf::Entry;
use btf2json::btf::EnumValue;
use btf2json::btf::Id;
use btf2json::btf::Member;
use btf2json::btf::Node;
use btf2json::btf::Type;
use btf2json::btf::TypeEx;
use btf2json::btf::Variant;
use btf2json::isf::base_types_from;
use btf2json::isf::enums_from;
use btf2json::isf::fixup_base;
use btf2json::isf::user_types_from;
use btf2json::isf::Isf;
use btf2json::isf::IsfError;
use btf2json::metadata::MetadataBuilder;
use btf2json::metadata::SourceKind;
use btf2json::names::NameMap;
use btf2json::symbols::Symbol;
use btf2json::symbols::SymbolKind;
use btf2json::symbols::SymbolScope;
use btf2json::symbols::Symbols;
use btf2json::v_types::forward_declared;
use btf2json::v_types::Base;
use btf2json::v_types::BaseConstructionCtx;
use btf2json::v_types::BaseKind;
use btf2json::v_types::Enum;
use btf2json::v_types::EnumConstructionCtx;
use btf2json::v_types::TypeDescr;
use btf2json::v_types::TypeError;
use btf2json::v_types::User;
use btf2json::v_types::UserConstructionCtx;
use btf2json::v_types::UserField;
use btf2json::v_types::UserFields;
use btf2json::v_types::UserKind;
use btf2json::GenerationContext;

fn entry(t: Node, name: &str) -> Entry {
    Entry { t: Type { t }, name: name.to_string(), members: vec![], variants: vec![] }
}

fn mem(name: &str, type_id: u32, bit_offset: u32, bitfield_size: Option<u32>, idx: u64) -> Member {
    Member {
        name: name.to_string(),
        name_off: if name.is_empty() { 0 } else { 1 },
        type_id,
        bit_offset,
        bitfield_size,
        idx,
    }
}

fn whole(size: usize, signed: bool) -> Node {
    Node::Int { size, signed, is_char: false, is_bool: false }
}

fn base(name: &str) -> TypeDescr {
    TypeDescr::Base { name: name.to_string() }
}

fn kernel_nodes() -> Vec<Entry> {
    let mut foo = entry(Node::Struct { size: 16 }, "foo");
    foo.members = vec![
        mem("a", 1, 0, Some(0), 0),
        mem("b", 2, 64, Some(0), 1),
        mem("c", 9, 130, Some(3), 2),
        mem("d", 7, 160, None, 3),
        mem("e", 15, 192, None, 4),
        mem("", 12, 200, None, 5),
        mem("f", 14, 208, None, 6),
        mem("g", 16, 216, None, 7),
    ];
    let mut color = entry(Node::Enum { size: 4, signed: false }, "color");
    color.variants = vec![
        Variant { name: Some("RED".to_string()), value: EnumValue(0) },
        Variant { name: Some("BLUE".to_string()), value: EnumValue(4294967295) },
        Variant { name: Some("RED".to_string()), value: EnumValue(7) },
    ];
    let mut pair = entry(Node::Union { size: 8 }, "");
    pair.members = vec![mem("x", 1, 0, None, 0), mem("x", 6, 0, None, 1)];
    let mut late = entry(Node::Struct { size: 32 }, "foo");
    late.members = vec![mem("only", 11, 0, None, 0)];
    vec![
        entry(Node::Void, ""),
        entry(whole(4, true), "int"),
        entry(Node::Ptr { target: 5 }, ""),
        entry(Node::Typedef { target: 1 }, "s32"),
        entry(Node::Const { target: 3 }, ""),
        foo,
        entry(whole(4, false), "unsigned int"),
        entry(Node::Array { elem: 2, len: 3 }, ""),
        entry(Node::Volatile { target: 4 }, ""),
        entry(Node::Typedef { target: 8 }, "flag_t"),
        color,
        entry(Node::Int { size: 1, signed: false, is_char: true, is_bool: false }, "char"),
        pair,
        entry(Node::Typedef { target: 12 }, "pair_t"),
        entry(Node::Fwd { is_union: false }, "bar"),
        entry(Node::FuncProto, ""),
        entry(Node::Typedef { target: 10 }, "color_t"),
        late,
        entry(Node::Int { size: 1, signed: false, is_char: false, is_bool: true }, "_Bool"),
        entry(Node::Float { size: 8 }, "double"),
    ]
}

fn kernel() -> Btf {
    Btf::new(Endian::Little, "vmlinux".to_string(), vec![0x61, 0x62, 0x63], kernel_nodes()).unwrap()
}

fn sym(addr: u64, t: Option<&str>) -> Symbol {
    Symbol {
        addr,
        t: t.map(|s| s.to_string()),
        kind: SymbolKind::D,
        scope: SymbolScope::Global,
        constant_data: None,
    }
}

fn symbols_of(list: Vec<(&str, Symbol)>) -> Symbols {
    let mut s = Symbols::new();
    for (name, symbol) in list {
        s.symbols.insert(name.to_string(), symbol);
    }
    s
}

fn context(btf: Btf, symbols: Symbols) -> GenerationContext {
    let (user_ids, enum_ids, basic_ids, typedefs) = btf.gen_vol_id_sets().unwrap();
    GenerationContext {
        mbuilder: Some(MetadataBuilder::new(&btf, &symbols)),
        btf,
        user_ids,
        enum_ids,
        basic_ids,
        symbols,
        typedefs,
    }
}

fn profile() -> Isf {
    let symbols = symbols_of(vec![
        ("init_task", sym(0x10, Some(r#"{"kind":"struct","name":"foo"}"#))),
        ("jiffies", sym(0x20, Some(r#"{"kind":"base","name":"unsigned int"}"#))),
        ("lost", sym(0x30, Some(r#"{"kind":"pointer","subtype":{"kind":"struct","name":"gone"}}"#))),
        ("plain", sym(0x40, None)),
    ]);
    Isf::try_from(context(kernel(), symbols)).unwrap()
}

fn field_of<'a>(u: &'a User, name: &str) -> &'a UserField {
    u.fields.0.get(name).unwrap()
}

#[test]
fn base_types_are_entered_under_their_names() {
    let isf = profile();
    let names: Vec<&str> = isf.base_types.entries.iter().map(|e| e.name.as_str()).collect();
    assert_eq!(names, vec!["_Bool", "char", "double", "int", "pointer", "unsigned int", "void"]);
    let i = isf.base_types.get("int").unwrap();
    assert_eq!(*i, Base { size: 4, signed: true, kind: BaseKind::Int, endian: btf2json::v_types::Endian::Little });
    let void = isf.base_types.get("void").unwrap();
    assert_eq!((void.size, void.signed, void.kind), (0, false, BaseKind::Void));
    let c = isf.base_types.get("char").unwrap();
    assert_eq!((c.size, c.signed, c.kind), (1, false, BaseKind::Char));
    let b = isf.base_types.get("_Bool").unwrap();
    assert_eq!((b.size, b.kind), (1, BaseKind::Bool));
    let d = isf.base_types.get("double").unwrap();
    assert_eq!((d.size, d.signed, d.kind), (8, true, BaseKind::Float));
    assert!(isf.base_types.get("s32").is_none());
}

#[test]
fn a_pointer_base_type_is_added_unless_there_is_one() {
    let isf = profile();
    let p = isf.base_types.get("pointer").unwrap();
    assert_eq!(*p, Base::new_pointer(btf2json::v_types::Endian::Little));
    assert_eq!((p.size, p.signed, p.kind), (8, false, BaseKind::Int));
    let own = Btf::new(
        Endian::Big,
        String::new(),
        vec![],
        vec![entry(Node::Void, ""), entry(whole(4, true), "pointer")],
    )
    .unwrap();
    let mut map = base_types_from(&own, &vec![Id(0), Id(1)]);
    fixup_base(&mut map, &Endian::Big);
    assert_eq!(map.len(), 2);
    let p = map.get("pointer").unwrap();
    assert_eq!((p.size, p.signed), (4, true));
    assert_eq!(p.endian, btf2json::v_types::Endian::Big);
    let mut empty: NameMap<Base> = NameMap::new();
    fixup_base(&mut empty, &Endian::Big);
    assert_eq!(empty.get("pointer"), Some(&Base::new_pointer(btf2json::v_types::Endian::Big)));
}

#[test]
fn base_construction() {
    let btf = kernel();
    let t = btf.get_type_by_id(Id(1)).unwrap();
    let b = BaseConstructionCtx { btf: &btf, tx: TypeEx { t, id: Id(1) } }.construct();
    assert_eq!((b.size, b.signed, b.kind), (4, true, BaseKind::Int));
    let wide = Type { t: whole(260, false) };
    let b = Base::from(BaseConstructionCtx { btf: &btf, tx: TypeEx { t: wide, id: Id(1) } });
    assert_eq!(b.size, 4);
    assert_eq!(BaseKind::try_from(&Type { t: Node::Void }), Ok(BaseKind::Void));
    assert_eq!(BaseKind::try_from(&Type { t: Node::Float { size: 4 } }), Ok(BaseKind::Float));
    assert_eq!(BaseKind::try_from(&Type { t: Node::Ptr { target: 0 } }), Err(TypeError::NotBase));
    let both = Type { t: Node::Int { size: 1, signed: false, is_char: true, is_bool: true } };
    assert_eq!(BaseKind::try_from(&both), Ok(BaseKind::Char));
    assert_eq!(btf2json::v_types::Endian::from(&Endian::Big), btf2json::v_types::Endian::Big);
    assert_eq!(btf2json::v_types::Endian::from(&Endian::Little), btf2json::v_types::Endian::Little);
}

#[test]
fn user_kinds() {
    assert_eq!(UserKind::try_from(&Type { t: Node::Struct { size: 1 } }), Ok(UserKind::Struct));
    assert_eq!(UserKind::try_from(&Type { t: Node::Union { size: 1 } }), Ok(UserKind::Union));
    assert_eq!(UserKind::try_from(&Type { t: Node::Fwd { is_union: true } }), Err(TypeError::NotUser));
    assert_eq!(UserKind::Struct.as_str(), "struct");
    assert_eq!(UserKind::Union.as_str(), "union");
    assert_eq!(UserKind::Class.as_str(), "class");
}

#[test]
fn given_two_structs_of_one_name_the_higher_id_wins() {
    let isf = profile();
    let foo = isf.user_types.get("foo").unwrap();
    assert_eq!(foo.size, 32);
    assert_eq!(foo.kind, UserKind::Struct);
    assert_eq!(foo.fields.iter().len(), 1);
    assert_eq!(field_of(foo, "only").t, base("char"));
    let btf = kernel();
    let (user_ids, _, _, typedefs) = btf.gen_vol_id_sets().unwrap();
    assert_eq!(user_ids, vec![Id(5), Id(12), Id(17)]);
    assert_eq!(user_types_from(&btf, &typedefs, &user_ids).get("foo").unwrap().size, 32);
    assert_eq!(user_types_from(&btf, &typedefs, &vec![Id(5), Id(12)]).get("foo").unwrap().size, 16);
}

#[test]
fn the_base_types_of_a_profile_hold_void() {
    let isf = profile();
    assert!(isf.base_types.contains_key("void"));
    let bare = Btf::new(Endian::Big, String::new(), vec![], vec![entry(Node::Void, "ignored")]).unwrap();
    let isf = Isf::try_from(context(bare, Symbols::new())).unwrap();
    let names: Vec<&str> = isf.base_types.entries.iter().map(|e| e.name.as_str()).collect();
    assert_eq!(names, vec!["pointer", "void"]);
}

#[test]
fn user_types_get_the_names_of_their_typedefs() {
    let isf = profile();
    let names: Vec<&str> = isf.user_types.entries.iter().map(|e| e.name.as_str()).collect();
    assert_eq!(names, vec!["foo", "pair_t", "unnamed_union_12"]);
    let a = isf.user_types.get("pair_t").unwrap();
    let b = isf.user_types.get("unnamed_union_12").unwrap();
    assert_eq!((a.kind, a.size), (UserKind::Union, 8));
    assert_eq!((b.kind, b.size), (UserKind::Union, 8));
    assert_eq!(field_of(a, "x").t, base("unsigned int"));
    assert_eq!(a.fields.iter().len(), 1);
}

#[test]
fn fields_of_a_struct() {
    let btf = kernel();
    let (_, _, _, typedefs) = btf.gen_vol_id_sets().unwrap();
    let t = btf.get_type_by_id(Id(5)).unwrap();
    let u = User::from(UserConstructionCtx {
        basic_ctx: BaseConstructionCtx { btf: &btf, tx: TypeEx { t, id: Id(5) } },
        typedefs: &typedefs,
    });
    assert_eq!((u.kind, u.size), (UserKind::Struct, 16));
    let names: Vec<&str> = u.fields.iter().iter().map(|e| e.name.as_str()).collect();
    assert_eq!(names, vec!["a", "b", "c", "d", "e", "f", "g", "unnamed_member_5"]);
    let a = field_of(&u, "a");
    assert_eq!((&a.t, a.offset, a.anon), (&base("int"), 0, false));
    let b = field_of(&u, "b");
    assert_eq!(b.offset, 8);
    assert_eq!(
        b.t,
        TypeDescr::Pointer { subtype: Box::new(TypeDescr::Struct { name: "foo".to_string() }) }
    );
    let d = field_of(&u, "d");
    assert_eq!(d.offset, 20);
    assert_eq!(
        d.t,
        TypeDescr::Array {
            count: 3,
            subtype: Box::new(TypeDescr::Pointer {
                subtype: Box::new(TypeDescr::Struct { name: "foo".to_string() })
            })
        }
    );
    assert_eq!(field_of(&u, "e").t, TypeDescr::Function);
    let anon = field_of(&u, "unnamed_member_5");
    assert_eq!((&anon.t, anon.offset, anon.anon), (&TypeDescr::Union { name: "unnamed_union_12".to_string() }, 25, true));
    assert_eq!(field_of(&u, "f").t, TypeDescr::Struct { name: "bar".to_string() });
    assert_eq!(field_of(&u, "g").t, TypeDescr::Enum { name: "color".to_string() });
}

#[test]
fn a_bitfield_is_wrapped_once_however_long_the_way_to_its_type() {
    let btf = kernel();
    let m = mem("c", 9, 130, Some(3), 2);
    let d = TypeDescr::of_member(&btf, &m);
    assert_eq!(
        d,
        TypeDescr::Bitfield { bit_position: 2, bit_length: 3, type_: Box::new(base("int")) }
    );
    let through_array = mem("z", 7, 9, Some(5), 0);
    assert_eq!(
        TypeDescr::of_member(&btf, &through_array),
        TypeDescr::Array {
            count: 3,
            subtype: Box::new(TypeDescr::Pointer {
                subtype: Box::new(TypeDescr::Bitfield {
                    bit_position: 1,
                    bit_length: 5,
                    type_: Box::new(TypeDescr::Struct { name: "foo".to_string() })
                })
            })
        }
    );
    let f = UserField::from(&btf, &m);
    assert_eq!((f.offset, f.anon), (16, false));
    assert_eq!(f.t, d);
}

#[test]
fn an_anonymous_type_is_named_by_its_typedef() {
    let btf = kernel();
    assert_eq!(
        TypeDescr::of_member(&btf, &mem("p", 13, 0, None, 0)),
        TypeDescr::Union { name: "pair_t".to_string() }
    );
    assert_eq!(
        TypeDescr::of_member(&btf, &mem("p", 12, 0, None, 0)),
        TypeDescr::Union { name: "unnamed_union_12".to_string() }
    );
    assert_eq!(TypeDescr::of_member(&btf, &mem("v", 0, 0, None, 0)), base("void"));
}

#[test]
fn a_member_that_ends_in_a_forward_declaration() {
    let btf = kernel();
    assert!(forward_declared(&btf, &mem("f", 14, 0, None, 0)));
    assert!(!forward_declared(&btf, &mem("b", 2, 0, None, 0)));
    assert!(!forward_declared(&btf, &mem("a", 1, 0, None, 0)));
}

#[test]
fn fields_of_what_has_none() {
    let btf = kernel();
    let (_, _, _, typedefs) = btf.gen_vol_id_sets().unwrap();
    let t = btf.get_type_by_id(Id(1)).unwrap();
    let ctx = UserConstructionCtx {
        basic_ctx: BaseConstructionCtx { btf: &btf, tx: TypeEx { t, id: Id(1) } },
        typedefs: &typedefs,
    };
    assert_eq!(UserFields::try_from(&ctx).err(), Some(TypeError::NotUser));
}

#[test]
fn an_enum_stands_on_the_first_base_type_that_carries_it() {
    let isf = profile();
    let names: Vec<&str> = isf.enums.entries.iter().map(|e| e.name.as_str()).collect();
    assert_eq!(names, vec!["color", "color_t"]);
    let e = isf.enums.get("color").unwrap();
    assert_eq!(e.size, 4);
    assert_eq!(e.base, "unsigned int");
    assert_eq!(e.constants.len(), 2);
    assert_eq!(e.constants.get("RED"), Some(&7));
    assert_eq!(e.constants.get("BLUE"), Some(&4294967295));
    let mut bases: NameMap<Base> = NameMap::new();
    let u4 = Base { size: 4, signed: false, kind: BaseKind::Int, endian: btf2json::v_types::Endian::Little };
    bases.insert("zz".to_string(), u4);
    bases.insert("mm".to_string(), u4);
    bases.insert("aa".to_string(), Base { size: 4, signed: false, kind: BaseKind::Char, endian: btf2json::v_types::Endian::Little });
    bases.insert("bb".to_string(), Base { size: 4, signed: true, kind: BaseKind::Int, endian: btf2json::v_types::Endian::Little });
    bases.insert("cc".to_string(), Base { size: 8, signed: false, kind: BaseKind::Int, endian: btf2json::v_types::Endian::Little });
    let btf = kernel();
    let t = btf.get_type_by_id(Id(10)).unwrap();
    let e = Enum::from(EnumConstructionCtx {
        basic_ctx: BaseConstructionCtx { btf: &btf, tx: TypeEx { t, id: Id(10) } },
        base_types: &bases,
    })
    .unwrap();
    assert_eq!(e.base, "mm");
}

#[test]
fn an_enum_without_a_base_type_of_its_size_and_signedness_fails() {
    let mut e = entry(Node::Enum { size: 4, signed: true }, "e");
    e.variants = vec![Variant { name: Some("A".to_string()), value: EnumValue(1) }];
    let btf = Btf::new(
        Endian::Little,
        String::new(),
        vec![],
        vec![entry(Node::Void, ""), entry(whole(4, false), "unsigned int"), entry(whole(8, true), "long"), e],
    )
    .unwrap();
    let ctx = context(btf, Symbols::new());
    assert_eq!(Isf::try_from(ctx).err(), Some(IsfError::EnumBase));
    let btf = kernel();
    let (_, enum_ids, _, typedefs) = btf.gen_vol_id_sets().unwrap();
    let none: NameMap<Base> = NameMap::new();
    assert_eq!(enums_from(&btf, &typedefs, &enum_ids, &none).err(), Some(TypeError::NoEnumBase));
}

#[test]
fn symbols_get_their_types_from_their_texts() {
    let isf = profile();
    let names: Vec<&str> = isf.symbols.entries.iter().map(|e| e.name.as_str()).collect();
    assert_eq!(names, vec!["init_task", "jiffies", "lost", "plain"]);
    let s = isf.symbols.get("init_task").unwrap();
    assert_eq!((s.address, &s.t), (0x10, &TypeDescr::Struct { name: "foo".to_string() }));
    assert!(s.linkage.is_none() && s.constant_data.is_none());
    assert_eq!(isf.symbols.get("plain").unwrap().t, base("void"));
    assert_eq!(isf.symbols.get("jiffies").unwrap().t, base("unsigned int"));
}

#[test]
fn a_symbol_whose_type_is_no_descriptor_fails_the_profile() {
    let symbols = symbols_of(vec![("bad", sym(1, Some(r#"{"kind":"blob"}"#)))]);
    assert_eq!(Isf::try_from(context(kernel(), symbols)).err(), Some(IsfError::SymbolType));
    let symbols = symbols_of(vec![("bad", sym(1, Some("{")))]);
    assert_eq!(Isf::try_from(context(kernel(), symbols)).err(), Some(IsfError::SymbolType));
}

#[test]
fn is_defined_looks_inside_the_wrappers() {
    let isf = profile();
    assert!(isf.is_defined(&base("int")));
    assert!(isf.is_defined(&base("pointer")));
    assert!(!isf.is_defined(&base("long")));
    assert!(isf.is_defined(&TypeDescr::Function));
    assert!(isf.is_defined(&TypeDescr::Enum { name: "color_t".to_string() }));
    assert!(!isf.is_defined(&TypeDescr::Enum { name: "foo".to_string() }));
    assert!(isf.is_defined(&TypeDescr::Struct { name: "foo".to_string() }));
    assert!(!isf.is_defined(&TypeDescr::Union { name: "foo".to_string() }));
    assert!(isf.is_defined(&TypeDescr::Union { name: "pair_t".to_string() }));
    assert!(!isf.is_defined(&TypeDescr::Struct { name: "pair_t".to_string() }));
    let deep = TypeDescr::Array {
        count: 2,
        subtype: Box::new(TypeDescr::Pointer {
            subtype: Box::new(TypeDescr::Bitfield {
                bit_position: 0,
                bit_length: 1,
                type_: Box::new(TypeDescr::Struct { name: "gone".to_string() }),
            }),
        }),
    };
    assert!(!isf.is_defined(&deep));
    assert_eq!(deep.resolve(), &TypeDescr::Struct { name: "gone".to_string() });
}

#[test]
fn fix_symbol_types_sets_the_type_of_dangling_symbols_to_void() {
    let mut isf = profile();
    let report = isf.fix_symbol_types().unwrap_err();
    assert_eq!(report.fixed.len(), 1);
    assert_eq!(report.fixed[0].name, "lost");
    assert_eq!(report.fixed[0].t, TypeDescr::Struct { name: "gone".to_string() });
    assert_eq!(report.missing, vec![TypeDescr::Struct { name: "gone".to_string() }]);
    let lost = isf.symbols.get("lost").unwrap();
    assert_eq!((lost.address, &lost.t), (0x30, &base("void")));
    assert_eq!(isf.symbols.get("init_task").unwrap().t, TypeDescr::Struct { name: "foo".to_string() });
    for e in isf.symbols.entries.iter() {
        assert!(isf.is_defined(&e.value.t));
    }
    assert!(isf.fix_symbol_types().is_ok());
    assert_eq!(isf.symbols.len(), 4);
}

#[test]
fn each_missing_type_is_counted_once() {
    let gone = r#"{"kind":"struct","name":"gone"}"#;
    let symbols = symbols_of(vec![
        ("a", sym(1, Some(r#"{"kind":"pointer","subtype":{"kind":"struct","name":"gone"}}"#))),
        ("b", sym(2, Some(r#"{"kind":"union","name":"gone"}"#))),
        ("c", sym(3, Some(gone))),
        ("d", sym(4, Some(r#"{"kind":"enum","name":"missing"}"#))),
        ("e", sym(5, Some(r#"{"kind":"array","count":2,"subtype":{"kind":"union","name":"gone"}}"#))),
        ("f", sym(6, Some(r#"{"kind":"base","name":"int"}"#))),
    ]);
    let mut isf = Isf::try_from(context(kernel(), symbols)).unwrap();
    let report = isf.fix_symbol_types().unwrap_err();
    let fixed: Vec<&str> = report.fixed.iter().map(|d| d.name.as_str()).collect();
    assert_eq!(fixed, vec!["a", "b", "c", "d", "e"]);
    assert_eq!(
        report.missing,
        vec![
            TypeDescr::Struct { name: "gone".to_string() },
            TypeDescr::Union { name: "gone".to_string() },
            TypeDescr::Enum { name: "missing".to_string() },
        ]
    );
    assert_eq!(isf.symbols.get("f").unwrap().t, base("int"));
    assert_eq!(isf.symbols.get("e").unwrap().t, base("void"));
}

#[test]
fn descriptors_that_describe_the_same() {
    let p = |d: TypeDescr| TypeDescr::Pointer { subtype: Box::new(d) };
    let a = |n: u64, d: TypeDescr| TypeDescr::Array { count: n, subtype: Box::new(d) };
    let b = |p: u8, l: u8, d: TypeDescr| TypeDescr::Bitfield { bit_position: p, bit_length: l, type_: Box::new(d) };
    let all = vec![
        base("x"),
        base("y"),
        TypeDescr::Enum { name: "x".to_string() },
        TypeDescr::Struct { name: "x".to_string() },
        TypeDescr::Union { name: "x".to_string() },
        TypeDescr::Function,
        p(base("x")),
        p(base("y")),
        a(1, base("x")),
        a(2, base("x")),
        a(1, base("y")),
        b(1, 2, base("x")),
        b(2, 2, base("x")),
        b(1, 3, base("x")),
        b(1, 2, base("y")),
        p(p(base("x"))),
    ];
    for (i, x) in all.iter().enumerate() {
        for (j, y) in all.iter().enumerate() {
            assert_eq!(x.same(y), i == j, "{:?} {:?}", x, y);
            assert_eq!(x.same(y), x == y);
        }
        assert!(x.same(&x.duplicate()));
    }
}

#[test]
fn dangling_fields_are_listed_in_the_order_of_the_names() {
    let mut z = entry(Node::Struct { size: 8 }, "z");
    z.members = vec![mem("q", 4, 0, None, 0), mem("b", 1, 32, None, 1), mem("a", 4, 64, None, 2)];
    let mut a = entry(Node::Union { size: 8 }, "a");
    a.members = vec![mem("m", 5, 0, None, 0)];
    let btf = Btf::new(
        Endian::Little,
        String::new(),
        vec![],
        vec![
            entry(Node::Void, ""),
            entry(whole(4, true), "int"),
            z,
            a,
            entry(Node::Fwd { is_union: false }, "bar"),
            entry(Node::Fwd { is_union: true }, "baz"),
        ],
    )
    .unwrap();
    let isf = Isf::try_from(context(btf, Symbols::new())).unwrap();
    let report = isf.check_user_types().unwrap_err();
    let got: Vec<(UserKind, &str, &str, &TypeDescr)> =
        report.iter().map(|f| (f.kind, f.owner.as_str(), f.field.as_str(), &f.t)).collect();
    let bar = TypeDescr::Struct { name: "bar".to_string() };
    let baz = TypeDescr::Union { name: "baz".to_string() };
    assert_eq!(
        got,
        vec![
            (UserKind::Union, "a", "m", &baz),
            (UserKind::Struct, "z", "a", &bar),
            (UserKind::Struct, "z", "q", &bar),
        ]
    );
}

#[test]
fn check_user_types_reports_a_field_of_a_missing_type_and_changes_nothing() {
    let mut s = entry(Node::Struct { size: 8 }, "holder");
    s.members = vec![mem("ok", 1, 0, None, 0), mem("missing", 3, 32, None, 1)];
    let btf = Btf::new(
        Endian::Little,
        String::new(),
        vec![],
        vec![entry(Node::Void, ""), entry(whole(4, true), "int"), s, entry(Node::Fwd { is_union: false }, "bar")],
    )
    .unwrap();
    let isf = Isf::try_from(context(btf, Symbols::new())).unwrap();
    let report = isf.check_user_types().unwrap_err();
    assert_eq!(report.len(), 1);
    assert_eq!(report[0].kind, UserKind::Struct);
    assert_eq!(report[0].owner, "holder");
    assert_eq!(report[0].field, "missing");
    assert_eq!(report[0].t, TypeDescr::Struct { name: "bar".to_string() });
    let holder = isf.user_types.get("holder").unwrap();
    assert_eq!(field_of(holder, "missing").t, TypeDescr::Struct { name: "bar".to_string() });
    assert_eq!(field_of(holder, "missing").offset, 4);
}

#[test]
fn check_user_types_passes_when_all_is_defined() {
    let mut s = entry(Node::Struct { size: 8 }, "holder");
    s.members = vec![mem("ok", 1, 0, None, 0), mem("me", 3, 32, None, 1)];
    let btf = Btf::new(
        Endian::Little,
        String::new(),
        vec![],
        vec![entry(Node::Void, ""), entry(whole(4, true), "int"), s, entry(Node::Ptr { target: 2 }, "")],
    )
    .unwrap();
    let isf = Isf::try_from(context(btf, Symbols::new())).unwrap();
    assert!(isf.check_user_types().is_ok());
}

#[test]
fn every_partitioned_type_is_defined_under_its_own_name() {
    let btf = kernel();
    let isf = profile();
    for (id, name) in [(1u32, "int"), (6, "unsigned int"), (0, "void"), (10, "color"), (12, "pair_t"), (17, "foo")] {
        let m = mem("probe", id, 0, None, 0);
        let d = TypeDescr::of_member(&btf, &m);
        assert_eq!(d.name().map(|s| s.as_str()), Some(if id == 12 { "unnamed_union_12" } else { name }));
        assert!(isf.is_defined(&d));
    }
}

#[test]
fn metadata_names_the_sources_and_their_digests() {
    let mut symbols = Symbols::new();
    symbols.raw_map = Some(b"abc".to_vec());
    symbols.name_map = Some("System.map".to_string());
    symbols.raw_symdb = Some(vec![]);
    symbols.name_symdb = Some("dummy.symdb".to_string());
    let isf = Isf::try_from(context(kernel(), symbols)).unwrap();
    let m = &isf.metadata;
    assert_eq!(m.producer.name, "btf2json");
    assert_eq!(m.producer.version, "0.1.0");
    assert_eq!(m.format.0, "6.2.0");
    assert_eq!(m.linux.types.len(), 1);
    let t = &m.linux.types[0];
    assert_eq!((t.kind, t.name.as_str(), t.hash_type.as_str()), (SourceKind::Btf, "vmlinux", "sha256"));
    assert_eq!(t.hash_value, "ba7816bf8f01cfea414140de5dae2223b00361a396177a9cb410ff61f20015ad");
    assert_eq!(m.linux.symbols.len(), 2);
    assert_eq!(m.linux.symbols[0].kind, SourceKind::SystemMap);
    assert_eq!(m.linux.symbols[0].name, "System.map");
    assert_eq!(m.linux.symbols[0].hash_value, "ba7816bf8f01cfea414140de5dae2223b00361a396177a9cb410ff61f20015ad");
    assert_eq!(m.linux.symbols[1].kind, SourceKind::Symdb);
    assert_eq!(m.linux.symbols[1].hash_value, "e3b0c44298fc1c149afbf4c8996fb92427ae41e4649b934ca495991b7852b855");
    let bare = Isf::try_from(context(kernel(), Symbols::new())).unwrap();
    assert_eq!(bare.metadata.linux.symbols.len(), 0);
}

#[test]
fn descriptors_name_and_kind() {
    assert_eq!(TypeDescr::new_void(), base("void"));
    assert_eq!(base("x").name().map(|s| s.as_str()), Some("x"));
    assert_eq!(base("x").kind(), Some(""));
    assert_eq!(TypeDescr::Enum { name: "e".into() }.kind(), Some("enum"));
    assert_eq!(TypeDescr::Union { name: "u".into() }.kind(), Some("union"));
    assert_eq!(TypeDescr::Struct { name: "s".into() }.kind(), Some("struct"));
    assert_eq!(TypeDescr::Function.kind(), None);
    assert_eq!(TypeDescr::Function.name(), None);
    let p = TypeDescr::Pointer { subtype: Box::new(base("x")) };
    assert_eq!(p.name(), None);
    assert_eq!(p.resolve(), &base("x"));
    assert_eq!(p.duplicate(), p);
}
