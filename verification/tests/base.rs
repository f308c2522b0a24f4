use hills::evolution::is_backwards_compatible;
use hills::evolution::is_enum_fields_compatible;
use hills::evolution::collections_equal;
use hills::key_pool::KeyPool;
use hills::keys::GenericKey;
use hills::schema::EnumFields;
use hills::schema::EnumInfo;
use hills::schema::EnumVariant;
use hills::schema::Reflect;
use hills::schema::StructField;
use hills::schema::StructInfo;
use hills::schema::TypeCollection;
use hills::schema::TypeInfo;
use hills::version::SimpleVersion;

struct Simple {
    _x: u32,
    _y: u32,
    _z: NonStandard,
}

struct MyStruct {
    _x: u32,
    _y: u32,
    _z: NonStandard,
}

struct NonStandard {
    _z: u32,
}

enum MyEnum {
    _A,
    _B(i32, f32),
    _C { x: u8, y: u16 },
}

fn field(ident: &str, ty: &str) -> StructField {
    StructField { ident: ident.to_string(), ty: ty.to_string() }
}

impl Reflect for NonStandard {
    fn reflect(to: &mut TypeCollection) {
        let ty_name = "basic::NonStandard".to_string();
        if to.root.is_empty() {
            to.root = ty_name.clone();
        }
        let fields = vec![field("_z", "u32")];
        to.refs.insert(ty_name, TypeInfo::Struct(StructInfo { fields }));
    }
}

impl Reflect for Simple {
    fn reflect(to: &mut TypeCollection) {
        let ty_name = "basic::Simple".to_string();
        if to.root.is_empty() {
            to.root = ty_name.clone();
        }
        let fields = vec![field("_x", "u32"), field("_y", "u32"), field("_z", "NonStandard")];
        to.refs.insert(ty_name, TypeInfo::Struct(StructInfo { fields }));
        NonStandard::reflect(to);
    }
}

impl Reflect for MyStruct {
    fn reflect(to: &mut TypeCollection) {
        let ty_name = "basic::MyStruct".to_string();
        if to.root.is_empty() {
            to.root = ty_name.clone();
        }
        let fields = vec![field("_x", "u32"), field("_y", "u32"), field("_z", "NonStandard")];
        to.refs.insert(ty_name, TypeInfo::Struct(StructInfo { fields }));
        NonStandard::reflect(to);
    }
}

impl Reflect for MyEnum {
    fn reflect(to: &mut TypeCollection) {
        let ty_name = "basic::MyEnum".to_string();
        if to.root.is_empty() {
            to.root = ty_name.clone();
        }
        let variants = vec![
            EnumVariant { ident: "_A".to_string(), fields: EnumFields::Unit },
            EnumVariant {
                ident: "_B".to_string(),
                fields: EnumFields::Unnamed(["i32".into(), "f32".into()].into()),
            },
            EnumVariant {
                ident: "_C".to_string(),
                fields: EnumFields::Named(
                    [
                        StructField { ident: "x".into(), ty: "u8".to_string() },
                        StructField { ident: "y".into(), ty: "u16".to_string() },
                    ]
                    .into(),
                ),
            },
        ];
        to.refs.insert(ty_name, TypeInfo::Enum(EnumInfo { variants }));
    }
}

#[test]
fn basic_test() {
    let mut ty_info = TypeCollection::new();
    Simple::reflect(&mut ty_info);
    let simple = ty_info.refs.get("basic::Simple").unwrap();
    assert!(matches!(simple, TypeInfo::Struct(_)));
    if let TypeInfo::Struct(s) = simple {
        let mut fields = s.fields.iter();
        let field_x = fields.next().unwrap();
        assert_eq!(field_x.ident, "_x");
        assert_eq!(field_x.ty, "u32");
        let field_y = fields.next().unwrap();
        assert_eq!(field_y.ident, "_y");
        assert_eq!(field_y.ty, "u32");
        let field_z = fields.next().unwrap();
        assert_eq!(field_z.ident, "_z");
        assert_eq!(field_z.ty, "NonStandard");
    }

    let non_standard = ty_info.refs.get("basic::NonStandard").unwrap();
    assert!(matches!(non_standard, TypeInfo::Struct(_)));
    if let TypeInfo::Struct(s) = non_standard {
        let mut fields = s.fields.iter();
        let field_z = fields.next().unwrap();
        assert_eq!(field_z.ident, "_z");
        assert_eq!(field_z.ty, "u32");
    }
}

#[test]
fn struct_test() {
    let mut tc = TypeCollection::new();
    MyStruct::reflect(&mut tc);
    assert_eq!(tc.root, "basic::MyStruct");
    let my_struct = tc.refs.get("basic::MyStruct").unwrap();
    assert!(matches!(my_struct, TypeInfo::Struct(_)));
    if let TypeInfo::Struct(s) = my_struct {
        let mut fields = s.fields.iter();
        let field_x = fields.next().unwrap();
        assert_eq!(field_x.ident, "_x");
        assert_eq!(field_x.ty, "u32");
        let field_y = fields.next().unwrap();
        assert_eq!(field_y.ident, "_y");
        assert_eq!(field_y.ty, "u32");
        let field_z = fields.next().unwrap();
        assert_eq!(field_z.ident, "_z");
        assert_eq!(field_z.ty, "NonStandard");
    }

    let non_standard = tc.refs.get("basic::NonStandard").unwrap();
    assert!(matches!(non_standard, TypeInfo::Struct(_)));
    if let TypeInfo::Struct(s) = non_standard {
        let mut fields = s.fields.iter();
        let field_z = fields.next().unwrap();
        assert_eq!(field_z.ident, "_z");
        assert_eq!(field_z.ty, "u32");
    }
}

#[test]
fn enum_test() {
    let mut tc = TypeCollection::new();
    MyEnum::reflect(&mut tc);
    let my_enum = tc.refs.get("basic::MyEnum").unwrap();
    assert!(matches!(my_enum, TypeInfo::Enum(_)));
    if let TypeInfo::Enum(e) = my_enum {
        let mut variants = e.variants.iter();
        let variant0 = variants.next().unwrap();
        assert_eq!(variant0.ident, "_A");
        assert_eq!(variant0.fields, EnumFields::Unit);

        let variant1 = variants.next().unwrap();
        assert_eq!(variant1.ident, "_B");
        assert_eq!(
            variant1.fields,
            EnumFields::Unnamed(["i32".into(), "f32".into()].into())
        );

        let variant2 = variants.next().unwrap();
        assert_eq!(variant2.ident, "_C");
        assert_eq!(
            variant2.fields,
            EnumFields::Named(
                [
                    StructField { ident: "x".into(), ty: "u8".to_string() },
                    StructField { ident: "y".into(), ty: "u16".to_string() }
                ]
                .into()
            )
        )
    }
}

#[test]
fn empty() {
    let mut pool = KeyPool::new(vec![]);
    assert_eq!(pool.get(), None);
}

#[test]
fn several_ranges() {
    let mut pool = KeyPool::new(vec![(0..2), (10..11)]);
    assert_eq!(pool.get(), Some(0));
    assert_eq!(pool.get(), Some(1));
    assert_eq!(pool.get(), Some(10));
    assert_eq!(pool.get(), None);
}

#[test]
fn test_version_cmp() {
    assert!(SimpleVersion::new(1, 0) > SimpleVersion::new(0, 0));
    assert!(SimpleVersion::new(0, 10) > SimpleVersion::new(0, 9));
    assert_eq!(SimpleVersion::new(0, 0), SimpleVersion::new(0, 0));
}

#[test]
fn key_pool_total() {
    let pool = KeyPool::new(vec![(0..5), (10..12)]);
    assert_eq!(pool.total_keys_available(), 7);
}

#[test]
fn key_bytes_roundtrip() {
    let k = GenericKey::new(0x01020304, 0xA0B0C0D0);
    let bytes = k.to_bytes();
    assert_eq!(bytes, [0x01, 0x02, 0x03, 0x04, 0xA0, 0xB0, 0xC0, 0xD0]);
    let back = GenericKey::from_bytes(&bytes).unwrap();
    assert_eq!(back, k);
}

#[test]
fn from_bytes_wrong_length_is_none() {
    assert!(GenericKey::from_bytes(&[]).is_none());
    assert!(GenericKey::from_bytes(&[1, 2, 3]).is_none());
    assert!(GenericKey::from_bytes(&[0; 7]).is_none());
    assert!(GenericKey::from_bytes(&[0; 9]).is_none());
    assert!(GenericKey::from_bytes(&[0; 8]).is_some());
}

#[test]
fn previous_revision_none_iff_zero() {
    assert!(GenericKey::new(5, 0).previous_revision().is_none());
    let p = GenericKey::new(5, 3).previous_revision().unwrap();
    assert_eq!(p, GenericKey::new(5, 2));
}

fn struct_collection(name: &str, tys: &[&str]) -> TypeCollection {
    let mut tc = TypeCollection::new();
    tc.root = name.to_string();
    let fields = tys
        .iter()
        .enumerate()
        .map(|(i, t)| StructField { ident: format!("f{}", i), ty: t.to_string() })
        .collect();
    tc.refs.insert(name.to_string(), TypeInfo::Struct(StructInfo { fields }));
    tc
}

fn enum_collection(name: &str, variants: Vec<EnumFields>) -> TypeCollection {
    let mut tc = TypeCollection::new();
    tc.root = name.to_string();
    let variants = variants
        .into_iter()
        .enumerate()
        .map(|(i, fields)| EnumVariant { ident: format!("V{}", i), fields })
        .collect();
    tc.refs.insert(name.to_string(), TypeInfo::Enum(EnumInfo { variants }));
    tc
}

#[test]
fn compat_allows_added_fields_and_renames() {
    let prev = struct_collection("doc::T", &["u32", "String"]);
    let next = struct_collection("doc::T", &["u32", "String", "bool"]);
    assert!(is_backwards_compatible(&prev, &next));
}

#[test]
fn compat_rejects_shortened_struct() {
    let prev = struct_collection("doc::T", &["u32", "String"]);
    let next = struct_collection("doc::T", &["u32"]);
    assert!(!is_backwards_compatible(&prev, &next));
}

#[test]
fn compat_rejects_changed_field_type() {
    let prev = struct_collection("doc::T", &["u32", "String"]);
    let next = struct_collection("doc::T", &["u32", "u64"]);
    assert!(!is_backwards_compatible(&prev, &next));
}

#[test]
fn compat_rejects_variant_count_change() {
    let prev = enum_collection("doc::E", vec![EnumFields::Unit, EnumFields::Unit]);
    let next = enum_collection(
        "doc::E",
        vec![EnumFields::Unit, EnumFields::Unit, EnumFields::Unit],
    );
    assert!(!is_backwards_compatible(&prev, &next));
}

#[test]
fn enum_fields_compat_by_shape() {
    let a = EnumFields::Unnamed(vec!["u32".to_string(), "bool".to_string()]);
    let b = EnumFields::Unnamed(vec!["u32".to_string(), "bool".to_string()]);
    let c = EnumFields::Unnamed(vec!["u32".to_string()]);
    assert!(is_enum_fields_compatible(&a, &b));
    assert!(!is_enum_fields_compatible(&a, &c));
    assert!(is_enum_fields_compatible(&EnumFields::Unit, &EnumFields::Unit));
    assert!(!is_enum_fields_compatible(&EnumFields::Unit, &a));
}

#[test]
fn collections_equal_ignores_names() {
    let mut a = TypeCollection::new();
    a.root = "doc::T".to_string();
    a.refs.insert(
        "doc::T".to_string(),
        TypeInfo::Struct(StructInfo {
            fields: vec![field("alpha", "u32"), field("beta", "String")],
        }),
    );
    let mut b = TypeCollection::new();
    b.root = "doc::T".to_string();
    b.refs.insert(
        "doc::T".to_string(),
        TypeInfo::Struct(StructInfo {
            fields: vec![field("gamma", "u32"), field("delta", "String")],
        }),
    );
    assert!(collections_equal(&a, &b));
    let c = struct_collection("doc::T", &["u32", "u64"]);
    assert!(!collections_equal(&a, &c));
}
