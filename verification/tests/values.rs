use netcdf::attribute::{get_attributes, is_attribute_type, put, AttrValue, Attribute, NC_GLOBAL};
use netcdf::dimension::{
    contains_id, from_name, get_group_dimensions, position_of_key, Dimension, Identifier, Key,
};
use netcdf::dump::{
    decimal, dimension_entry, dimension_line, dimensions_section, group_heading, variable_line,
};
use netcdf::engine::{RawAttribute, RawDimension, RawType, Request};
use netcdf::error::{checked, classify, Error, NC_EBADTYPE, NC_NOERR};
use netcdf::file::File;
use netcdf::types::{
    get_types, is_simple, is_simple_ncid, type_from_name, type_request, user_type,
    variable_type_request, SimpleType, Type,
};
use netcdf::utils::{is_valid_name, name_from_buffer, short_name_to_bytes, zero_position};

#[test]
fn status_codes_are_classified() {
    assert_eq!(checked(0), Ok(()));
    for status in [-33, -43, -46, -49, -116, -117, -125] {
        assert_eq!(checked(status), Err(Error::NotFound));
    }
    assert_eq!(checked(-59), Err(Error::InvalidName));
    assert_eq!(checked(-53), Err(Error::InvalidName));
    assert_eq!(checked(-42), Err(Error::AlreadyExists));
    assert_eq!(checked(-56), Err(Error::TypeMismatch));
    assert_eq!(checked(-45), Err(Error::Unsupported));
    assert_eq!(checked(-37), Err(Error::Engine(-37)));
    assert_eq!(checked(2), Err(Error::Engine(2)));
    assert_eq!(classify(-101), Error::Engine(-101));
    assert_eq!(Error::Engine(-101).status(), Some(-101));
    assert_eq!(Error::NotFound.status(), None);
}

#[test]
fn names_are_laid_out_for_the_engine() {
    let bytes = short_name_to_bytes("abc").unwrap();
    assert_eq!(bytes.len(), 257);
    assert_eq!(&bytes[..3], b"abc");
    assert!(bytes[3..].iter().all(|&b| b == 0));
    let empty = short_name_to_bytes("").unwrap();
    assert_eq!(empty, vec![0u8; 257]);
    let longest = "x".repeat(256);
    let bytes = short_name_to_bytes(&longest).unwrap();
    assert_eq!(&bytes[..256], longest.as_bytes());
    assert_eq!(bytes[256], 0);
    assert_eq!(short_name_to_bytes(&"x".repeat(257)).unwrap_err(), Error::InvalidName);
    assert_eq!(short_name_to_bytes("a\0").unwrap_err(), Error::InvalidName);
    // The length is counted in bytes.
    let wide = "é".repeat(128);
    assert!(is_valid_name(&wide));
    assert!(!is_valid_name(&"é".repeat(129)));
}

#[test]
fn names_come_back_from_the_engine() {
    assert_eq!(zero_position(b"abc\0def"), 3);
    assert_eq!(zero_position(b"abc"), 3);
    assert_eq!(zero_position(b""), 0);
    assert_eq!(zero_position(b"\0abc"), 0);
    assert_eq!(name_from_buffer(b"abc\0def"), "abc");
    assert_eq!(name_from_buffer(b"abc"), "abc");
    assert_eq!(name_from_buffer(b"\0"), "");
    assert_eq!(name_from_buffer(&[0xe2, 0x82, 0xac, 0]), "€");
    assert_eq!(name_from_buffer(&[b'a', 0xc0, b'b']), "a\u{fffd}b");
    for name in ["", "time", "grüße", "x y"] {
        let buffer = short_name_to_bytes(name).unwrap();
        assert_eq!(name_from_buffer(&buffer), name);
    }
}

#[test]
fn type_identifiers_are_mapped() {
    let expected = [
        (7, SimpleType::U8),
        (1, SimpleType::I8),
        (8, SimpleType::U16),
        (3, SimpleType::I16),
        (9, SimpleType::U32),
        (4, SimpleType::I32),
        (11, SimpleType::U64),
        (10, SimpleType::I64),
        (5, SimpleType::F32),
        (6, SimpleType::F64),
    ];
    for (xtype, kind) in expected {
        assert_eq!(SimpleType::from_id(xtype), Some(kind));
        assert_eq!(kind.id(), xtype);
        assert!(is_simple(xtype));
        assert!(matches!(Type::from_id(xtype), Ok(Type::Simple(k)) if k == kind));
    }
    assert!(matches!(Type::from_id(12), Ok(Type::String)));
    for xtype in [0, 2, 12, 13, 14, 15, 16, 32, -1] {
        assert_eq!(SimpleType::from_id(xtype), None);
        assert!(!is_simple(xtype));
    }
    for xtype in [0, 2, 13, 14, 15, 16, 32, -1] {
        assert_eq!(Type::from_id(xtype).unwrap_err(), Error::Unsupported);
    }
}

#[test]
fn type_lookup_by_name() {
    assert!(matches!(
        type_from_name("double", NC_NOERR, 6),
        Ok(Some(Type::Simple(SimpleType::F64)))
    ));
    assert!(matches!(type_from_name("string", NC_NOERR, 12), Ok(Some(Type::String))));
    assert!(matches!(type_from_name("nosuch", NC_EBADTYPE, 0), Ok(None)));
    assert_eq!(type_from_name("mine", NC_NOERR, 32).unwrap_err(), Error::Unsupported);
    assert_eq!(type_from_name("any", -33, 6).unwrap_err(), Error::NotFound);
    assert_eq!(type_from_name("a\0", NC_NOERR, 6).unwrap_err(), Error::InvalidName);
    assert_eq!(type_from_name("a\0", NC_EBADTYPE, 6).unwrap_err(), Error::InvalidName);
    assert_eq!(is_simple_ncid(NC_NOERR, 6), Ok(true));
    assert_eq!(is_simple_ncid(NC_NOERR, 12), Ok(false));
    assert_eq!(is_simple_ncid(-49, 6), Err(Error::NotFound));
}

#[test]
fn user_types_are_described() {
    let raw = |class: i32| RawType { typeid: 40, name: b"t\0".to_vec(), size: 12, class };
    assert!(matches!(user_type(5, &raw(14)), Ok(Type::Opaque(_))));
    assert!(matches!(user_type(5, &raw(15)), Ok(Type::Enum(_))));
    assert!(matches!(user_type(5, &raw(16)), Ok(Type::Compound(_))));
    assert_eq!(user_type(5, &raw(13)).unwrap_err(), Error::Unsupported);
    assert_eq!(user_type(5, &raw(6)).unwrap_err(), Error::Unsupported);
    let all = get_types(5, &vec![raw(14), raw(16)]).unwrap();
    assert_eq!(all.len(), 2);
    assert!(matches!(&all[1], Type::Compound(t) if t.name() == "t" && t.size() == 12));
    assert_eq!(get_types(5, &vec![raw(14), raw(0), raw(16)]).unwrap_err(), Error::Unsupported);
    assert_eq!(get_types(5, &Vec::new()).unwrap().len(), 0);
}

#[test]
fn dimensions_from_the_engine() {
    let raw = vec![
        RawDimension { dimid: 3, name: b"time\0".to_vec(), len: 12 },
        RawDimension { dimid: 4, name: b"x\0".to_vec(), len: 4 },
    ];
    let dims = get_group_dimensions(9, &raw, &vec![7, 3]);
    assert_eq!(dims.len(), 2);
    assert_eq!(dims[0].name(), "time");
    assert!(dims[0].is_unlimited());
    assert_eq!(dims[0].len(NC_NOERR, 12), Ok(12));
    assert_eq!(dims[0].identifier(), Identifier { ncid: 9, dimid: 3 });
    assert_eq!(dims[1].fixed_len(), Some(4));
    assert!(contains_id(&vec![7, 3], 3));
    assert!(!contains_id(&vec![7, 3], 4));
    assert!(!contains_id(&Vec::new(), 0));

    assert_eq!(from_name(&dims, "x").unwrap().unwrap().identifier().dimid, 4);
    assert!(from_name(&dims, "y").unwrap().is_none());
    assert_eq!(from_name(&dims, "a\0").unwrap_err(), Error::InvalidName);

    let time = "time".to_string();
    assert_eq!(position_of_key(&dims, &Key::Name(&time)), Some(0));
    assert_eq!(position_of_key(&dims, &Key::Handle(4)), Some(1));
    assert_eq!(position_of_key(&dims, &Key::Handle(5)), None);
    assert_eq!(position_of_key(&dims, &Key::Id(Identifier { ncid: 9, dimid: 4 })), Some(1));
    assert_eq!(position_of_key(&dims, &Key::Id(Identifier { ncid: 8, dimid: 4 })), None);
    assert!(Key::Handle(3).matches(&dims[0]));
    assert!(!Key::Handle(3).matches(&dims[1]));
}

#[test]
fn a_new_dimension_is_fixed_or_grows() {
    let d = Dimension::new("x".to_string(), 4, 1, 2);
    assert_eq!(d.fixed_len(), Some(4));
    assert!(!d.is_unlimited());
    assert_eq!(d.identifier(), Identifier { ncid: 1, dimid: 2 });
    let d = Dimension::new("t".to_string(), 0, 1, 3);
    assert_eq!(d.fixed_len(), None);
    assert!(d.is_unlimited());
    assert_eq!(d.len(NC_NOERR, 10), Ok(10));
    assert_eq!(d.len(-46, 10), Err(Error::NotFound));
    assert_eq!(d.clone(), d);
}

#[test]
fn attribute_values_have_a_type_and_length() {
    let values = [
        (AttrValue::Uchars(vec![1, 2]), 7, 2),
        (AttrValue::Schars(vec![-1]), 1, 1),
        (AttrValue::Ushorts(vec![]), 8, 0),
        (AttrValue::Shorts(vec![1, 2, 3]), 3, 3),
        (AttrValue::Uints(vec![1]), 9, 1),
        (AttrValue::Ints(vec![1]), 4, 1),
        (AttrValue::Ulonglongs(vec![1]), 11, 1),
        (AttrValue::Longlongs(vec![1]), 10, 1),
        (AttrValue::Floats(vec![0x3f80_0000]), 5, 1),
        (AttrValue::Doubles(vec![0, 1]), 6, 2),
        (AttrValue::Str("grüße".to_string()), 2, 7),
        (AttrValue::Strs(vec!["a".to_string(), "bc".to_string()]), 12, 2),
    ];
    for (value, xtype, len) in values {
        assert_eq!(value.xtype(), xtype);
        assert_eq!(value.len(), len);
        assert!(is_attribute_type(xtype));
        assert_eq!(value.clone(), value);
    }
    for xtype in [0, 13, 14, 15, 16, 32, -1] {
        assert!(!is_attribute_type(xtype));
    }
}

#[test]
fn attributes_from_the_engine() {
    let raw = |name: &[u8], xtype: i32, value: Option<AttrValue>| RawAttribute {
        name: name.to_vec(),
        xtype,
        value,
    };
    let good = vec![
        raw(b"a\0", 4, Some(AttrValue::Ints(vec![1]))),
        raw(b"b\0", 2, Some(AttrValue::Str("t".to_string()))),
    ];
    let attrs = get_attributes(1, NC_GLOBAL, &good);
    assert_eq!(attrs.len(), 2);
    assert_eq!(attrs[0].name(), "a");
    assert_eq!(attrs[0].xtype(), 4);
    assert_eq!(attrs[1].value(), Ok(&AttrValue::Str("t".to_string())));
    assert_eq!(attrs[0].variable(), None);
    let attrs = get_attributes(1, 3, &good);
    assert_eq!(attrs[0].variable(), Some(3));

    // Every record gives an attribute; what may fail is asking for its value.
    let mismatch = raw(b"c\0", 6, Some(AttrValue::Ints(vec![1])));
    let kept = Attribute::from_raw(1, 0, &mismatch);
    assert_eq!(kept.name(), "c");
    assert_eq!(kept.xtype(), 6);
    assert_eq!(kept.value(), Err(Error::TypeMismatch));
    let unknown = raw(b"d\0", 33, None);
    let kept = Attribute::from_raw(1, 0, &unknown);
    assert_eq!(kept.xtype(), 33);
    assert_eq!(kept.value(), Err(Error::Unsupported));
    assert_eq!(kept.clone(), kept);
    let unread = raw(b"e\0", 4, None);
    assert_eq!(Attribute::from_raw(1, 0, &unread).value(), Err(Error::TypeMismatch));
    let all = vec![
        raw(b"a\0", 4, Some(AttrValue::Ints(vec![1]))),
        raw(b"c\0", 6, Some(AttrValue::Ints(vec![1]))),
        raw(b"d\0", 33, None),
    ];
    let attrs = get_attributes(1, 0, &all);
    let names: Vec<String> = attrs.iter().map(|a| a.name()).collect();
    assert_eq!(names, vec!["a", "c", "d"]);
    assert_eq!(attrs[0].value(), Ok(&AttrValue::Ints(vec![1])));
}

#[test]
fn put_replaces_or_appends() {
    let mut attrs = Vec::new();
    let attr = |name: &str, n: i32| {
        Attribute::new(name.to_string(), 1, NC_GLOBAL, AttrValue::Ints(vec![n]))
    };
    assert_eq!(put(&mut attrs, attr("a", 1)), 0);
    assert_eq!(put(&mut attrs, attr("b", 2)), 1);
    assert_eq!(put(&mut attrs, attr("a", 3)), 0);
    assert_eq!(attrs.len(), 2);
    assert_eq!(attrs[0].value(), Ok(&AttrValue::Ints(vec![3])));
    assert_eq!(attrs[1].value(), Ok(&AttrValue::Ints(vec![2])));
    assert_eq!(attrs[0].xtype(), 4);
}

#[test]
fn numbers_in_decimal() {
    assert_eq!(decimal(0), "0");
    assert_eq!(decimal(4), "4");
    assert_eq!(decimal(10), "10");
    assert_eq!(decimal(1234567890), "1234567890");
    assert_eq!(decimal(usize::MAX), usize::MAX.to_string());
}

#[test]
fn dump_of_root_dimensions() {
    let mut file = File::create("dump.nc", 1);
    {
        let mut root = file.root_mut();
        root.add_dimension("time", 0, NC_NOERR, 0).unwrap();
        root.add_dimension("x", 4, NC_NOERR, 1).unwrap();
        root.add_variable("v", SimpleType::F32, &["time", "x"], NC_NOERR, 0).unwrap();
        root.add_variable("scalar", SimpleType::F32, &[], NC_NOERR, 1).unwrap();
    }
    let lines = dimensions_section(file.dimensions(), &vec![(NC_NOERR, 0), (NC_NOERR, 0)]);
    assert_eq!(
        lines,
        Ok(vec![
            "Dimensions:".to_string(),
            "\ttime : Unlimited (0)".to_string(),
            "\tx : (4)".to_string()
        ])
    );
    // After the dimension has grown, the listing follows.
    let lines = dimensions_section(file.dimensions(), &vec![(NC_NOERR, 10), (NC_NOERR, 10)]);
    let lines = lines.unwrap();
    assert_eq!(lines[1], "\ttime : Unlimited (10)");
    assert_eq!(lines[2], "\tx : (4)");
    // A fixed dimension needs no answer.
    let lines = dimensions_section(file.dimensions(), &vec![(NC_NOERR, 3)]).unwrap();
    assert_eq!(lines[1], "\ttime : Unlimited (3)");
    assert_eq!(lines[2], "\tx : (4)");
    let lines = dimensions_section(file.dimensions(), &vec![(NC_NOERR, 3), (-46, 0)]).unwrap();
    assert_eq!(lines[2], "\tx : (4)");
    // Where the engine failed, or was not asked, for a dimension that
    // grows, nothing is listed: the failure reaches the caller.
    assert_eq!(
        dimensions_section(file.dimensions(), &vec![(-33, 5), (NC_NOERR, 4)]),
        Err(Error::NotFound)
    );
    assert_eq!(
        dimensions_section(file.dimensions(), &vec![(-37, 5)]),
        Err(Error::Engine(-37))
    );
    assert_eq!(dimensions_section(file.dimensions(), &Vec::new()), Err(Error::NotFound));
    assert_eq!(
        dimensions_section(&Vec::new(), &Vec::new()),
        Ok(vec!["Dimensions:".to_string()])
    );

    assert_eq!(dimension_line("y", false, 12), "\ty : (12)");
    assert_eq!(dimension_line("y", true, 0), "\ty : Unlimited (0)");
    assert_eq!(
        dimension_entry(&file.dimensions()[0], NC_NOERR, 5),
        Ok("\ttime : Unlimited (5)".to_string())
    );
    assert_eq!(dimension_entry(&file.dimensions()[0], -33, 5), Err(Error::NotFound));
    assert_eq!(dimension_entry(&file.dimensions()[1], -33, 5), Ok("\tx : (4)".to_string()));
    assert_eq!(variable_line(&file.variables()[0]), "\tv( time  x )");
    assert_eq!(variable_line(&file.variables()[1]), "\tscalar()");
    assert_eq!(group_heading("child"), "Group: child");
}

#[test]
fn questions_for_the_engine() {
    let mut name = b"pair".to_vec();
    name.resize(257, 0);
    assert_eq!(type_request(4, "pair").unwrap(), Request::InquireType { ncid: 4, name });
    assert_eq!(type_request(4, &"p".repeat(300)).unwrap_err(), Error::InvalidName);
    assert_eq!(variable_type_request(4, 2), Request::InquireVariableType { ncid: 4, varid: 2 });
    let fixed = Dimension::new("x".to_string(), 4, 1, 2);
    assert_eq!(fixed.length_request(), None);
    let grows = Dimension::new("t".to_string(), 0, 1, 3);
    assert_eq!(
        grows.length_request(),
        Some(Request::InquireDimensionLength { ncid: 1, dimid: 3 })
    );
}

#[test]
fn a_stub_engine_answers_for_a_growing_dimension() {
    // The engine holds the current length of each dimension; a write
    // through a variable extends the dimension it is bound to.
    let mut lengths = vec![0usize, 4];
    let answer = |lengths: &Vec<usize>, request: &Request| match request {
        Request::InquireDimensionLength { dimid, .. } => match lengths.get(*dimid as usize) {
            Some(len) => (NC_NOERR, *len),
            None => (-46, 0),
        },
        _ => (-36, 0),
    };
    let mut file = File::create("grow.nc", 1);
    let mut root = file.root_mut();
    let time = root.add_dimension("time", 0, NC_NOERR, 0).unwrap();
    let x = root.add_dimension("x", 4, NC_NOERR, 1).unwrap();
    root.add_variable("v", SimpleType::F64, &["time", "x"], NC_NOERR, 0).unwrap();
    let current = |d: &Dimension, lengths: &Vec<usize>| match d.length_request() {
        Some(request) => {
            let (status, len) = answer(lengths, &request);
            d.len(status, len)
        }
        None => d.len(NC_NOERR, 0),
    };
    assert_eq!(current(&time, &lengths), Ok(0));
    assert_eq!(current(&x, &lengths), Ok(4));
    // A write at index 9 of the first dimension.
    lengths[0] = 10;
    assert_eq!(current(&time, &lengths), Ok(10));
    assert_eq!(current(&x, &lengths), Ok(4));
    // The dimension bound into the variable is asked in the same way.
    let g = root.as_group();
    let bound = &g.variable("v").unwrap().unwrap().dimensions()[0];
    assert_eq!(current(bound, &lengths), Ok(10));
    // A handle that the engine no longer knows is not found.
    let stale = Dimension::new("gone".to_string(), 0, 1, 7);
    assert_eq!(current(&stale, &lengths), Err(Error::NotFound));
}
