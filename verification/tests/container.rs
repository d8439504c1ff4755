use netcdf::attribute::AttrValue;
use netcdf::dimension::Identifier;
use netcdf::engine::{RawAttribute, RawDimension, RawGroup, RawType, RawVariable, Request};
use netcdf::error::{Error, NC_NOERR};
use netcdf::file::{File, MemFile, NC_NOWRITE, NC_WRITE};
use netcdf::types::{Type, NC_COMPOUND, NC_DOUBLE, NC_ENUM, NC_INT, NC_OPAQUE};

fn buffer(name: &str) -> Vec<u8> {
    let mut bytes = name.as_bytes().to_vec();
    bytes.resize(257, 0);
    bytes
}

fn dim(dimid: i32, name: &str, len: usize) -> RawDimension {
    RawDimension { dimid, name: buffer(name), len }
}

fn attr(name: &str, xtype: i32, value: AttrValue) -> RawAttribute {
    RawAttribute { name: buffer(name), xtype, value: Some(value) }
}

fn var(varid: i32, name: &str, xtype: i32, dimids: Vec<i32>) -> RawVariable {
    RawVariable { varid, name: buffer(name), xtype, dimids, attributes: Vec::new() }
}

fn group(grpid: i32, name: &str) -> RawGroup {
    RawGroup {
        grpid,
        name: buffer(name),
        dimensions: Vec::new(),
        unlimited: Vec::new(),
        types: Vec::new(),
        variables: Vec::new(),
        attributes: Vec::new(),
        groups: Vec::new(),
    }
}

fn sample() -> RawGroup {
    let mut root = group(100, "/");
    root.dimensions = vec![dim(0, "time", 10), dim(1, "x", 4)];
    root.unlimited = vec![0];
    let mut v = var(0, "v", NC_DOUBLE, vec![0, 1]);
    v.attributes = vec![attr("units", 2, AttrValue::Str("m".to_string()))];
    root.variables = vec![v];
    root.attributes = vec![attr("title", 2, AttrValue::Str("sample".to_string()))];
    root.types =
        vec![RawType { typeid: 32, name: buffer("pair"), size: 16, class: NC_COMPOUND }];

    let mut a = group(101, "a");
    a.dimensions = vec![dim(2, "y", 2)];
    a.variables = vec![var(0, "w", NC_INT, vec![2, 1])];
    let mut deep = group(102, "deep");
    deep.variables = vec![var(0, "u", NC_INT, vec![0, 2])];
    a.groups = vec![deep];

    let mut b = group(103, "b");
    b.attributes = vec![attr("n", NC_INT, AttrValue::Ints(vec![1, 2, 3]))];
    root.groups = vec![a, b];
    root
}

#[test]
fn open_builds_the_whole_tree() {
    let file = File::open("sample.nc", &sample()).unwrap();
    assert_eq!(file.name(), "sample.nc");
    assert_eq!(file.ncid(), 100);
    assert!(!file.is_writable());

    let root = file.root();
    assert_eq!(root.name(), "root");
    assert_eq!(root.id(), 100);
    let dims = root.dimensions();
    assert_eq!(dims.len(), 2);
    assert_eq!(dims[0].name(), "time");
    assert!(dims[0].is_unlimited());
    assert_eq!(dims[0].identifier(), Identifier { ncid: 100, dimid: 0 });
    assert_eq!(dims[1].name(), "x");
    assert_eq!(dims[1].fixed_len(), Some(4));

    let v = root.variable("v").unwrap().unwrap();
    assert_eq!(v.type_id(), NC_DOUBLE);
    assert_eq!(v.dimensions().len(), 2);
    assert_eq!(v.dimensions()[0].name(), "time");
    assert_eq!(v.dimensions()[1].name(), "x");
    assert_eq!(
        v.attribute("units").unwrap().unwrap().value(),
        Ok(&AttrValue::Str("m".to_string()))
    );
    assert_eq!(v.attributes()[0].variable(), Some(0));

    let title = root.attribute("title").unwrap().unwrap();
    assert_eq!(title.value(), Ok(&AttrValue::Str("sample".to_string())));
    assert_eq!(title.variable(), None);

    assert_eq!(root.types().len(), 1);
    match &root.types()[0] {
        Type::Compound(t) => {
            assert_eq!(t.name(), "pair");
            assert_eq!(t.ncid(), 100);
            assert_eq!(t.typeid(), 32);
            assert_eq!(t.size(), 16);
        }
        other => panic!("unexpected type {:?}", other),
    }

    let names: Vec<String> = root.groups().iter().map(|g| g.name()).collect();
    assert_eq!(names, vec!["a".to_string(), "b".to_string()]);
}

#[test]
fn open_resolves_dimensions_of_variables_upward() {
    let file = File::open("sample.nc", &sample()).unwrap();
    let a = file.group("a").unwrap().unwrap();
    assert_eq!(a.id(), 101);
    let w = a.variable("w").unwrap().unwrap();
    assert_eq!(w.dimensions()[0].identifier(), Identifier { ncid: 101, dimid: 2 });
    assert_eq!(w.dimensions()[1].identifier(), Identifier { ncid: 100, dimid: 1 });
    let deep = a.group("deep").unwrap().unwrap();
    assert_eq!(deep.parent().unwrap().id(), 101);
    let u = deep.variable("u").unwrap().unwrap();
    assert_eq!(u.dimensions()[0].identifier(), Identifier { ncid: 100, dimid: 0 });
    assert!(u.dimensions()[0].is_unlimited());
    assert_eq!(u.dimensions()[1].identifier(), Identifier { ncid: 101, dimid: 2 });
    // Dimensions are found by name from below, never from above.
    assert!(deep.dimension("x").unwrap().is_some());
    assert!(deep.dimension("y").unwrap().is_some());
    assert!(file.dimension("y").unwrap().is_none());
    let b = file.group("b").unwrap().unwrap();
    assert!(b.dimension("y").unwrap().is_none());
    assert!(b.dimension("time").unwrap().is_some());
    assert_eq!(b.attributes()[0].value(), Ok(&AttrValue::Ints(vec![1, 2, 3])));
}

#[test]
fn open_fails_where_a_dimension_is_out_of_sight() {
    // The variable of `b` names the dimension that only `a` defines.
    let mut raw = sample();
    raw.groups[1].variables = vec![var(0, "bad", NC_INT, vec![2])];
    assert_eq!(File::open("sample.nc", &raw).unwrap_err(), Error::NotFound);
    // A handle that names nothing at all.
    let mut raw = sample();
    raw.variables[0].dimids = vec![0, 9];
    assert_eq!(File::open("sample.nc", &raw).unwrap_err(), Error::NotFound);
    // The root does not see the dimension of its subgroup.
    let mut raw = sample();
    raw.variables[0].dimids = vec![2];
    assert_eq!(File::append("sample.nc", &raw).unwrap_err(), Error::NotFound);
}

#[test]
fn open_fails_on_a_type_without_a_kind() {
    let mut raw = sample();
    raw.groups[0].groups[0].types =
        vec![RawType { typeid: 33, name: buffer("v"), size: 8, class: 13 }];
    assert_eq!(File::open("sample.nc", &raw).unwrap_err(), Error::Unsupported);
}

#[test]
fn an_attribute_without_a_kind_is_kept() {
    // An attribute of a type that the library has no kind for, such as a
    // fill value of a compound variable, does not make the container
    // unreadable: it is there with its name and type, and only asking for
    // its value fails.
    let mut raw = sample();
    raw.attributes.push(RawAttribute { name: buffer("_FillValue"), xtype: 32, value: None });
    raw.attributes.push(attr("odd", NC_DOUBLE, AttrValue::Ints(vec![1])));
    raw.attributes.push(RawAttribute { name: buffer("lost"), xtype: NC_INT, value: None });
    raw.attributes.push(attr("alien", 40, AttrValue::Ints(vec![1])));
    raw.variables[0].attributes.push(RawAttribute {
        name: buffer("_FillValue"),
        xtype: 33,
        value: None,
    });
    let file = File::open("sample.nc", &raw).unwrap();
    let names: Vec<String> = file.attributes().iter().map(|a| a.name()).collect();
    assert_eq!(names, vec!["title", "_FillValue", "odd", "lost", "alien"]);
    assert_eq!(file.attribute("title").unwrap().unwrap().xtype(), 2);
    let fill = file.attribute("_FillValue").unwrap().unwrap();
    assert_eq!(fill.xtype(), 32);
    assert_eq!(fill.value(), Err(Error::Unsupported));
    let odd = file.attribute("odd").unwrap().unwrap();
    assert_eq!(odd.xtype(), NC_DOUBLE);
    assert_eq!(odd.value(), Err(Error::TypeMismatch));
    assert_eq!(file.attribute("lost").unwrap().unwrap().value(), Err(Error::TypeMismatch));
    assert_eq!(file.attribute("alien").unwrap().unwrap().value(), Err(Error::Unsupported));
    let v = file.variable("v").unwrap().unwrap();
    assert_eq!(v.attributes().len(), 2);
    assert_eq!(v.attribute("_FillValue").unwrap().unwrap().value(), Err(Error::Unsupported));
    assert!(v.attribute("units").unwrap().unwrap().value().is_ok());
}

#[test]
fn open_reports_the_first_error_met() {
    // Types are read before variables, and a group before its subgroups.
    let mut raw = sample();
    raw.types = vec![RawType { typeid: 33, name: buffer("v"), size: 8, class: 13 }];
    raw.variables[0].dimids = vec![9];
    assert_eq!(File::open("sample.nc", &raw).unwrap_err(), Error::Unsupported);
    let mut raw = sample();
    raw.variables[0].dimids = vec![9];
    raw.groups[0].types = vec![RawType { typeid: 33, name: buffer("v"), size: 8, class: 13 }];
    assert_eq!(File::open("sample.nc", &raw).unwrap_err(), Error::NotFound);
    let mut raw = sample();
    raw.groups[0].types = vec![RawType { typeid: 33, name: buffer("v"), size: 8, class: 13 }];
    raw.groups[1].variables = vec![var(0, "bad", NC_INT, vec![9])];
    assert_eq!(File::open("sample.nc", &raw).unwrap_err(), Error::Unsupported);
    // Attributes are never a reason.
    let mut raw = sample();
    raw.variables[0].dimids = vec![9];
    raw.variables[0].attributes = vec![attr("odd", 40, AttrValue::Ints(vec![1]))];
    assert_eq!(File::open("sample.nc", &raw).unwrap_err(), Error::NotFound);
}

#[test]
fn a_container_that_can_not_be_used_is_closed() {
    let close = Request::Close { ncid: 100 };
    // The report is refused.
    let mut raw = sample();
    raw.variables[0].dimids = vec![9];
    let report = Ok(raw);
    assert_eq!(
        File::open_or_close("sample.nc", 100, &report).unwrap_err(),
        (Error::NotFound, Request::Close { ncid: 100 })
    );
    assert_eq!(File::append_or_close("sample.nc", 100, &report).unwrap_err().1, close);
    let bytes = [1u8, 2, 3];
    assert_eq!(
        MemFile::new_or_close(None, &bytes, 100, &report).unwrap_err(),
        (Error::NotFound, Request::Close { ncid: 100 })
    );
    // The engine failed while the container was read.
    let report = Err(Error::Engine(-101));
    assert_eq!(
        File::open_or_close("sample.nc", 7, &report).unwrap_err(),
        (Error::Engine(-101), Request::Close { ncid: 7 })
    );
    assert_eq!(
        File::append_or_close("sample.nc", 7, &report).unwrap_err(),
        (Error::Engine(-101), Request::Close { ncid: 7 })
    );
    assert_eq!(
        MemFile::new_or_close(Some("m"), &bytes, 7, &report).unwrap_err(),
        (Error::Engine(-101), Request::Close { ncid: 7 })
    );
    // A container that can be used stays open.
    let report = Ok(sample());
    let file = File::open_or_close("sample.nc", 100, &report).unwrap();
    assert!(!file.is_writable());
    assert_eq!(file.dimensions().len(), 2);
    let file = File::append_or_close("sample.nc", 100, &report).unwrap();
    assert!(file.is_writable());
    assert_eq!(file.name(), "sample.nc");
    let mem = MemFile::new_or_close(None, &bytes, 100, &report).unwrap();
    assert_eq!(mem.file().name(), "");
    assert_eq!(mem.file().groups().len(), 2);
}

#[test]
fn user_types_keep_their_class() {
    let mut raw = group(1, "/");
    raw.types = vec![
        RawType { typeid: 32, name: buffer("o"), size: 3, class: NC_OPAQUE },
        RawType { typeid: 33, name: buffer("e"), size: 4, class: NC_ENUM },
        RawType { typeid: 34, name: buffer("c"), size: 5, class: NC_COMPOUND },
    ];
    let file = File::open("types.nc", &raw).unwrap();
    let root = file.root();
    let types = root.types();
    assert!(matches!(&types[0], Type::Opaque(t) if t.name() == "o" && t.size() == 3));
    assert!(matches!(&types[1], Type::Enum(t) if t.name() == "e" && t.typeid() == 33));
    assert!(matches!(&types[2], Type::Compound(t) if t.name() == "c" && t.ncid() == 1));
}

#[test]
fn names_end_at_the_first_nul() {
    let mut raw = group(1, "/");
    let mut name = b"abc".to_vec();
    name.push(0);
    name.extend_from_slice(b"rest");
    raw.dimensions = vec![RawDimension { dimid: 0, name, len: 1 }];
    // A buffer without NUL is read whole.
    raw.groups = vec![RawGroup { name: b"whole".to_vec(), ..group(2, "") }];
    // Bytes that are no text are replaced, not refused.
    raw.attributes = vec![RawAttribute {
        name: vec![b'a', 0xff, b'b', 0],
        xtype: NC_INT,
        value: Some(AttrValue::Ints(vec![])),
    }];
    let file = File::open("names.nc", &raw).unwrap();
    assert_eq!(file.dimensions()[0].name(), "abc");
    assert_eq!(file.groups()[0].name(), "whole");
    assert_eq!(file.attributes()[0].name(), "a\u{fffd}b");
}

#[test]
fn a_dimension_without_length_grows() {
    let mut raw = group(1, "/");
    raw.dimensions = vec![dim(0, "a", 0), dim(1, "b", 3), dim(2, "c", 3)];
    raw.unlimited = vec![2];
    let file = File::open("dims.nc", &raw).unwrap();
    let dims = file.dimensions();
    assert!(dims[0].is_unlimited());
    assert_eq!(dims[1].fixed_len(), Some(3));
    assert!(dims[2].is_unlimited());
    assert_eq!(dims[2].len(NC_NOERR, 3), Ok(3));
    assert_eq!(dims[0].len(NC_NOERR, 0), Ok(0));
    assert_eq!(dims[0].len(-46, 0), Err(Error::NotFound));
}

#[test]
fn append_opens_for_writing() {
    let mut file = File::append("sample.nc", &sample()).unwrap();
    assert!(file.is_writable());
    {
        let mut root = file.root_mut();
        let mut a = root.group_mut("a").unwrap().unwrap();
        a.add_variable("more", netcdf::SimpleType::U8, &["time", "y"], NC_NOERR, 1).unwrap();
        assert_eq!(
            a.add_dimension("y", 1, NC_NOERR, 3).unwrap_err(),
            Error::AlreadyExists
        );
        assert!(a.add_dimension("x", 1, NC_NOERR, 3).is_ok());
    }
    let a = file.group("a").unwrap().unwrap();
    assert_eq!(a.variables().len(), 2);
    assert_eq!(a.dimension("x").unwrap().unwrap().fixed_len(), Some(1));
    assert_eq!(file.dimension("x").unwrap().unwrap().fixed_len(), Some(4));
}

#[test]
fn create_gives_an_empty_root() {
    let file = File::create("new.nc", 7);
    assert_eq!(file.name(), "new.nc");
    assert!(file.is_writable());
    let root = file.root();
    assert_eq!(root.name(), "root");
    assert_eq!(root.id(), 7);
    assert!(root.parent().is_none());
    assert_eq!(root.dimensions().len(), 0);
    assert_eq!(root.variables().len(), 0);
    assert_eq!(root.attributes().len(), 0);
    assert_eq!(root.groups().len(), 0);
    assert_eq!(root.types().len(), 0);
}

#[test]
fn lifecycle_requests() {
    assert_eq!(
        File::open_request("/data/a.nc").unwrap(),
        Request::Open { path: "/data/a.nc".to_string(), mode: NC_NOWRITE }
    );
    assert_eq!(
        File::append_request("/data/a.nc").unwrap(),
        Request::Open { path: "/data/a.nc".to_string(), mode: NC_WRITE }
    );
    assert_eq!(
        File::create_request("/data/a.nc").unwrap(),
        Request::Create { path: "/data/a.nc".to_string(), mode: 0x1000 }
    );
    assert_eq!(File::open_request("a\0b").unwrap_err(), Error::InvalidName);
    assert_eq!(File::append_request("a\0b").unwrap_err(), Error::InvalidName);
    assert_eq!(File::create_request("\0").unwrap_err(), Error::InvalidName);
    let file = File::create("a.nc", 31);
    assert_eq!(file.close(), Request::Close { ncid: 31 });
}

#[test]
fn container_in_memory() {
    let bytes = [0u8, 42, 1, 2];
    assert_eq!(
        MemFile::open_request(None, &bytes).unwrap(),
        Request::OpenMemory { path: "/".to_string(), mode: NC_NOWRITE, size: 4 }
    );
    assert_eq!(
        MemFile::open_request(Some("mem"), &bytes).unwrap(),
        Request::OpenMemory { path: "mem".to_string(), mode: NC_NOWRITE, size: 4 }
    );
    assert_eq!(MemFile::open_request(Some("m\0"), &bytes).unwrap_err(), Error::InvalidName);
    let mem = MemFile::new(None, &bytes, &sample()).unwrap();
    assert_eq!(mem.file().name(), "");
    assert!(!mem.file().is_writable());
    assert_eq!(mem.file().dimensions().len(), 2);
    assert_eq!(mem.close(), Request::Close { ncid: 100 });
    let mem = MemFile::new(Some("named"), &bytes, &sample()).unwrap();
    assert_eq!(mem.file().name(), "named");
    let mut raw = sample();
    raw.variables[0].dimids = vec![9];
    assert_eq!(MemFile::new(None, &bytes, &raw).unwrap_err(), Error::NotFound);
}

fn shareable<T: Send + Sync>() {}

#[test]
fn views_for_reading_are_shared_freely() {
    // A container and its views for reading can go to any number of
    // threads: reading them asks nothing of the engine.
    shareable::<File>();
    shareable::<netcdf::Group<'static>>();
    shareable::<netcdf::Dimension>();
    shareable::<netcdf::Variable>();
    shareable::<netcdf::Attribute>();
    let file = File::open("sample.nc", &sample()).unwrap();
    let first = file.root();
    let second = first;
    let third = file.group("a").unwrap().unwrap();
    assert_eq!(first.variables().len(), second.variables().len());
    assert_eq!(first.attributes()[0].name(), second.attributes()[0].name());
    assert_eq!(third.parent().unwrap().id(), first.id());
}
