use netcdf::attribute::{AttrValue, NC_GLOBAL};
use netcdf::dimension::Identifier;
use netcdf::engine::Request;
use netcdf::error::{Error, NC_ENAMEINUSE, NC_NOERR};
use netcdf::file::File;
use netcdf::types::{SimpleType, NC_DOUBLE, NC_INT, NC_STRING};

fn padded(name: &str) -> Vec<u8> {
    let mut bytes = name.as_bytes().to_vec();
    bytes.resize(257, 0);
    bytes
}

#[test]
fn add_group_round_trip() {
    let mut file = File::create("roundtrip.nc", 65536);
    {
        let mut root = file.root_mut();
        let child = root.add_group("g", NC_NOERR, 65537).unwrap();
        assert_eq!(child.index, 1);
    }
    let root = file.root();
    let g = root.group("g").unwrap().unwrap();
    assert_eq!(g.name(), "g");
    assert_eq!(g.id(), 65537);
    assert_eq!(g.dimensions().len(), 0);
    assert_eq!(g.variables().len(), 0);
    assert_eq!(g.attributes().len(), 0);
    assert_eq!(g.groups().len(), 0);
    assert!(root.group("h").unwrap().is_none());
    let parent = g.parent().unwrap();
    assert_eq!(parent.name(), "root");
    assert!(root.parent().is_none());
}

#[test]
fn fixed_dimension() {
    let mut file = File::create("fixed.nc", 1);
    {
        let mut root = file.root_mut();
        let d = root.add_dimension("x", 4, NC_NOERR, 0).unwrap();
        assert!(!d.is_unlimited());
        assert_eq!(d.fixed_len(), Some(4));
    }
    let root = file.root();
    let d = root.dimension("x").unwrap().unwrap();
    assert!(!d.is_unlimited());
    assert_eq!(d.len(NC_NOERR, 0), Ok(4));
    assert_eq!(d.len(NC_NOERR, 99), Ok(4));
    assert_eq!(d.len(-33, 99), Ok(4));
    assert_eq!(d.name(), "x");
    assert_eq!(d.identifier(), Identifier { ncid: 1, dimid: 0 });
}

#[test]
fn growable_dimension() {
    let mut file = File::create("grow.nc", 1);
    let mut root = file.root_mut();
    let d = root.add_dimension("time", 0, NC_NOERR, 0).unwrap();
    assert!(d.is_unlimited());
    assert_eq!(d.fixed_len(), None);
    assert_eq!(d.len(NC_NOERR, 0), Ok(0));
    // A write through a variable has extended the dimension to index 9:
    // the engine now answers 10.
    assert_eq!(d.len(NC_NOERR, 10), Ok(10));
    // A failing engine gives no length: its failure reaches the caller.
    assert_eq!(d.len(-33, 10), Err(Error::NotFound));
    assert_eq!(d.len(-46, 10), Err(Error::NotFound));
    assert_eq!(d.len(-37, 10), Err(Error::Engine(-37)));
    let again = root.add_unlimited_dimension("other", NC_NOERR, 1).unwrap();
    assert!(again.is_unlimited());
}

#[test]
fn upward_dimension_visibility() {
    let mut file = File::create("up.nc", 10);
    {
        let mut root = file.root_mut();
        root.add_dimension("x", 4, NC_NOERR, 0).unwrap();
        let mut child = root.add_group("child", NC_NOERR, 11).unwrap();
        let request = child.variable_request("v", SimpleType::I32, &["x"]).unwrap();
        assert_eq!(
            request,
            Request::DefineVariable { ncid: 11, name: padded("v"), xtype: NC_INT, dimids: vec![0] }
        );
        let v = child.add_variable("v", SimpleType::I32, &["x"], NC_NOERR, 0).unwrap();
        assert_eq!(v.as_variable().name(), "v");
    }
    let root = file.root();
    let child = root.group("child").unwrap().unwrap();
    let v = child.variable("v").unwrap().unwrap();
    assert_eq!(v.dimensions().len(), 1);
    assert_eq!(v.dimensions()[0].identifier(), Identifier { ncid: 10, dimid: 0 });
    assert_eq!(v.dimensions()[0].name(), "x");
    assert_eq!(v.type_id(), NC_INT);
    // The child sees the dimension of the root by its name.
    let seen = child.dimension("x").unwrap().unwrap();
    assert_eq!(seen.identifier(), Identifier { ncid: 10, dimid: 0 });
    // It is not among the dimensions that the child defines.
    assert_eq!(child.dimensions().len(), 0);
}

#[test]
fn no_downward_visibility() {
    let mut file = File::create("down.nc", 10);
    {
        let mut root = file.root_mut();
        let mut child = root.add_group("child", NC_NOERR, 11).unwrap();
        child.add_dimension("inner", 3, NC_NOERR, 0).unwrap();
    }
    let root = file.root();
    assert!(root.dimension("inner").unwrap().is_none());
    let child = root.group("child").unwrap().unwrap();
    assert!(child.dimension("inner").unwrap().is_some());
    // A sibling does not see it either.
    let mut root = file.root_mut();
    let sibling = root.add_group("sibling", NC_NOERR, 12).unwrap();
    assert!(sibling.as_group().dimension("inner").unwrap().is_none());
}

#[test]
fn nearest_definition_wins() {
    let mut file = File::create("shadow.nc", 10);
    {
        let mut root = file.root_mut();
        root.add_dimension("x", 4, NC_NOERR, 0).unwrap();
        let mut child = root.add_group("child", NC_NOERR, 11).unwrap();
        child.add_dimension("x", 7, NC_NOERR, 1).unwrap();
    }
    let root = file.root();
    let child = root.group("child").unwrap().unwrap();
    assert_eq!(child.dimension("x").unwrap().unwrap().fixed_len(), Some(7));
    assert_eq!(root.dimension("x").unwrap().unwrap().fixed_len(), Some(4));
}

#[test]
fn duplicate_dimension_is_refused() {
    let mut file = File::create("dup.nc", 1);
    let mut root = file.root_mut();
    root.add_dimension("x", 4, NC_NOERR, 0).unwrap();
    assert_eq!(root.dimension_request("x", 5).unwrap_err(), Error::AlreadyExists);
    assert_eq!(root.add_dimension("x", 5, NC_NOERR, 1).unwrap_err(), Error::AlreadyExists);
    assert_eq!(root.as_group().dimensions().len(), 1);
    assert_eq!(root.as_group().dimensions()[0].fixed_len(), Some(4));
}

#[test]
fn engine_refusal_leaves_the_group_unchanged() {
    let mut file = File::create("refused.nc", 1);
    let mut root = file.root_mut();
    assert_eq!(
        root.add_dimension("x", 4, NC_ENAMEINUSE, 0).unwrap_err(),
        Error::AlreadyExists
    );
    assert_eq!(root.add_dimension("x", 4, -37, 0).unwrap_err(), Error::Engine(-37));
    assert_eq!(root.add_group("g", -37, 5).unwrap_err(), Error::Engine(-37));
    assert_eq!(
        root.add_variable("v", SimpleType::F64, &[], -37, 0).unwrap_err(),
        Error::Engine(-37)
    );
    assert_eq!(
        root.add_attribute("a", AttrValue::Ints(vec![1]), -56).unwrap_err(),
        Error::TypeMismatch
    );
    let g = root.as_group();
    assert_eq!(g.dimensions().len(), 0);
    assert_eq!(g.groups().len(), 0);
    assert_eq!(g.variables().len(), 0);
    assert_eq!(g.attributes().len(), 0);
}

#[test]
fn invalid_names_are_refused_before_the_engine() {
    let long = "n".repeat(257);
    let mut file = File::create("names.nc", 1);
    let mut root = file.root_mut();
    assert_eq!(root.dimension_request(&long, 1).unwrap_err(), Error::InvalidName);
    assert_eq!(root.add_dimension(&long, 1, NC_NOERR, 0).unwrap_err(), Error::InvalidName);
    assert_eq!(root.group_request("a\0b").unwrap_err(), Error::InvalidName);
    assert_eq!(root.add_group("a\0b", NC_NOERR, 2).unwrap_err(), Error::InvalidName);
    assert_eq!(
        root.variable_request(&long, SimpleType::U8, &[]).unwrap_err(),
        Error::InvalidName
    );
    assert_eq!(
        root.attribute_request(&long, &AttrValue::Ints(vec![])).unwrap_err(),
        Error::InvalidName
    );
    assert_eq!(
        root.add_attribute(&long, AttrValue::Ints(vec![]), NC_NOERR).unwrap_err(),
        Error::InvalidName
    );
    let g = root.as_group();
    assert_eq!(g.dimension(&long).unwrap_err(), Error::InvalidName);
    assert_eq!(g.variable(&long).unwrap_err(), Error::InvalidName);
    assert_eq!(g.attribute(&long).unwrap_err(), Error::InvalidName);
    assert_eq!(g.group(&long).unwrap_err(), Error::InvalidName);
    // A name of exactly the longest length is accepted.
    let longest = "n".repeat(256);
    assert!(root.add_dimension(&longest, 1, NC_NOERR, 0).is_ok());
}

#[test]
fn requests_name_the_group_and_its_arguments() {
    let mut file = File::create("req.nc", 20);
    let mut root = file.root_mut();
    assert_eq!(
        root.dimension_request("x", 4).unwrap(),
        Request::DefineDimension { ncid: 20, name: padded("x"), len: 4 }
    );
    assert_eq!(
        root.group_request("g").unwrap(),
        Request::DefineGroup { ncid: 20, name: padded("g") }
    );
    assert_eq!(
        root.attribute_request("title", &AttrValue::Str("abc".to_string())).unwrap(),
        Request::PutAttribute {
            ncid: 20,
            varid: NC_GLOBAL,
            name: padded("title"),
            xtype: 2,
            len: 3
        }
    );
    root.add_dimension("x", 4, NC_NOERR, 3).unwrap();
    root.add_dimension("y", 0, NC_NOERR, 5).unwrap();
    assert_eq!(
        root.string_variable_request("s", &["y", "x"]).unwrap(),
        Request::DefineVariable {
            ncid: 20,
            name: padded("s"),
            xtype: NC_STRING,
            dimids: vec![5, 3]
        }
    );
    let ids = [Identifier { ncid: 20, dimid: 3 }];
    assert_eq!(
        root.variable_from_identifiers_request("w", SimpleType::F64, &ids).unwrap(),
        Request::DefineVariable { ncid: 20, name: padded("w"), xtype: NC_DOUBLE, dimids: vec![3] }
    );
    let mut child = root.add_group("g", NC_NOERR, 21).unwrap();
    assert_eq!(
        child.dimension_request("x", 1).unwrap(),
        Request::DefineDimension { ncid: 21, name: padded("x"), len: 1 }
    );
    child.add_dimension("x", 1, NC_NOERR, 6).unwrap();
}

#[test]
fn add_variable_resolves_dimensions_in_order() {
    let mut file = File::create("vars.nc", 1);
    let mut root = file.root_mut();
    root.add_dimension("time", 0, NC_NOERR, 0).unwrap();
    root.add_dimension("x", 4, NC_NOERR, 1).unwrap();
    {
        let v = root
            .add_variable("v", SimpleType::F64, &["time", "x"], NC_NOERR, 7)
            .unwrap();
        assert_eq!(v.index, 0);
        assert_eq!(v.as_variable().varid(), 7);
    }
    let g = root.as_group();
    let v = g.variable("v").unwrap().unwrap();
    assert_eq!(v.type_id(), NC_DOUBLE);
    let names: Vec<String> = v.dimensions().iter().map(|d| d.name()).collect();
    assert_eq!(names, vec!["time".to_string(), "x".to_string()]);
    assert!(v.dimensions()[0].is_unlimited());
    assert_eq!(v.dimensions()[1].fixed_len(), Some(4));
    assert_eq!(v.attributes().len(), 0);
    assert!(g.variable("w").unwrap().is_none());
}

#[test]
fn add_variable_fails_on_unknown_dimension() {
    let mut file = File::create("vars.nc", 1);
    let mut root = file.root_mut();
    root.add_dimension("x", 4, NC_NOERR, 1).unwrap();
    assert_eq!(
        root.add_variable("v", SimpleType::F64, &["x", "nope"], NC_NOERR, 7).unwrap_err(),
        Error::NotFound
    );
    assert_eq!(
        root.variable_request("v", SimpleType::F64, &["nope"]).unwrap_err(),
        Error::NotFound
    );
    assert_eq!(
        root.add_variable("v", SimpleType::F64, &["x", "a\0b"], NC_NOERR, 7).unwrap_err(),
        Error::InvalidName
    );
    assert_eq!(root.as_group().variables().len(), 0);
}

#[test]
fn add_variable_refuses_a_taken_name() {
    let mut file = File::create("vars.nc", 1);
    let mut root = file.root_mut();
    root.add_string_variable("v", &[], NC_NOERR, 0).unwrap();
    assert_eq!(
        root.add_variable("v", SimpleType::U8, &[], NC_NOERR, 1).unwrap_err(),
        Error::AlreadyExists
    );
    assert_eq!(
        root.add_string_variable("v", &[], NC_NOERR, 1).unwrap_err(),
        Error::AlreadyExists
    );
    let g = root.as_group();
    assert_eq!(g.variables().len(), 1);
    assert_eq!(g.variables()[0].type_id(), NC_STRING);
}

#[test]
fn add_variable_from_identifiers_climbs_to_ancestors() {
    let mut file = File::create("ids.nc", 1);
    let mut root = file.root_mut();
    let x = root.add_dimension("x", 4, NC_NOERR, 0).unwrap().identifier();
    let mut child = root.add_group("child", NC_NOERR, 2).unwrap();
    let y = child.add_dimension("y", 2, NC_NOERR, 1).unwrap().identifier();
    {
        let v = child
            .add_variable_from_identifiers("v", SimpleType::I16, &[y, x], NC_NOERR, 0)
            .unwrap();
        let dims = v.as_variable().dimensions();
        assert_eq!(dims[0].identifier(), y);
        assert_eq!(dims[1].identifier(), x);
    }
    // An identifier of another container is not found.
    let foreign = Identifier { ncid: 99, dimid: 0 };
    assert_eq!(
        child
            .add_variable_from_identifiers("w", SimpleType::I16, &[foreign], NC_NOERR, 1)
            .unwrap_err(),
        Error::NotFound
    );
    // The root does not see what the child defines.
    drop(child);
    assert_eq!(
        root.add_variable_from_identifiers("w", SimpleType::I16, &[y], NC_NOERR, 1).unwrap_err(),
        Error::NotFound
    );
}

#[test]
fn add_attribute_puts_in_place() {
    let mut file = File::create("attrs.nc", 1);
    let mut root = file.root_mut();
    root.add_attribute("a", AttrValue::Ints(vec![1]), NC_NOERR).unwrap();
    root.add_attribute("b", AttrValue::Str("text".to_string()), NC_NOERR).unwrap();
    let put = root.add_attribute("a", AttrValue::Doubles(vec![7, 8]), NC_NOERR).unwrap();
    assert_eq!(put.name(), "a");
    assert_eq!(put.variable(), None);
    let g = root.as_group();
    assert_eq!(g.attributes().len(), 2);
    assert_eq!(g.attributes()[0].name(), "a");
    assert_eq!(g.attributes()[0].value(), Ok(&AttrValue::Doubles(vec![7, 8])));
    assert_eq!(g.attributes()[0].xtype(), 6);
    assert_eq!(g.attributes()[1].name(), "b");
    let b = g.attribute("b").unwrap().unwrap();
    assert_eq!(b.value(), Ok(&AttrValue::Str("text".to_string())));
    assert!(g.attribute("c").unwrap().is_none());
}

#[test]
fn variable_attributes_are_scoped_to_the_variable() {
    let mut file = File::create("attrs.nc", 3);
    let mut root = file.root_mut();
    root.add_variable("v", SimpleType::U8, &[], NC_NOERR, 4).unwrap();
    root.add_variable("w", SimpleType::U8, &[], NC_NOERR, 5).unwrap();
    {
        let mut w = root.variable_mut("w").unwrap().unwrap();
        assert_eq!(
            w.attribute_request("units", &AttrValue::Uchars(vec![1, 2])).unwrap(),
            Request::PutAttribute { ncid: 3, varid: 5, name: padded("units"), xtype: 7, len: 2 }
        );
        let a = w.add_attribute("units", AttrValue::Uchars(vec![1, 2]), NC_NOERR).unwrap();
        assert_eq!(a.variable(), Some(5));
        w.add_attribute("units", AttrValue::Uchars(vec![3]), NC_NOERR).unwrap();
        assert_eq!(
            w.add_attribute("bad", AttrValue::Uchars(vec![3]), -56).unwrap_err(),
            Error::TypeMismatch
        );
    }
    assert!(root.variable_mut("none").unwrap().is_none());
    let g = root.as_group();
    assert_eq!(g.attributes().len(), 0);
    let v = g.variable("v").unwrap().unwrap();
    assert_eq!(v.attributes().len(), 0);
    let w = g.variable("w").unwrap().unwrap();
    assert_eq!(w.attributes().len(), 1);
    assert_eq!(
        w.attribute("units").unwrap().unwrap().value(),
        Ok(&AttrValue::Uchars(vec![3]))
    );
    assert!(w.attribute("bad").unwrap().is_none());
}

#[test]
fn duplicate_group_is_refused() {
    let mut file = File::create("groups.nc", 1);
    let mut root = file.root_mut();
    root.add_group("g", NC_NOERR, 2).unwrap();
    assert_eq!(root.group_request("g").unwrap_err(), Error::AlreadyExists);
    assert!(root.add_group("g", NC_NOERR, 3).is_err());
    assert_eq!(root.as_group().groups().len(), 1);
    // The same name is free in another group.
    let mut g = root.group_mut("g").unwrap().unwrap();
    assert!(g.add_group("g", NC_NOERR, 3).is_ok());
}

#[test]
fn groups_are_listed_in_order_of_definition() {
    let mut file = File::create("groups.nc", 1);
    {
        let mut root = file.root_mut();
        {
            let mut a = root.add_group("a", NC_NOERR, 2).unwrap();
            a.add_group("a1", NC_NOERR, 3).unwrap();
        }
        root.add_group("b", NC_NOERR, 4).unwrap();
        let mut a = root.group_mut("a").unwrap().unwrap();
        a.add_group("a2", NC_NOERR, 5).unwrap();
        assert!(root.group_mut("zz").unwrap().is_none());
    }
    let root = file.root();
    let names: Vec<String> = root.groups().iter().map(|g| g.name()).collect();
    assert_eq!(names, vec!["a".to_string(), "b".to_string()]);
    let a = root.group("a").unwrap().unwrap();
    let names: Vec<String> = a.groups().iter().map(|g| g.name()).collect();
    assert_eq!(names, vec!["a1".to_string(), "a2".to_string()]);
    let a2 = a.group("a2").unwrap().unwrap();
    assert_eq!(a2.id(), 5);
    assert_eq!(a2.parent().unwrap().id(), 2);
}

#[test]
fn mutable_views_are_handed_out_in_turn() {
    let mut file = File::create("turn.nc", 1);
    let mut root = file.root_mut();
    root.add_group("a", NC_NOERR, 2).unwrap();
    root.add_group("b", NC_NOERR, 3).unwrap();
    root.add_variable("v", SimpleType::U8, &[], NC_NOERR, 0).unwrap();
    root.add_variable("w", SimpleType::U8, &[], NC_NOERR, 1).unwrap();
    {
        let mut groups = root.groups_mut();
        let mut handle = 10;
        while let Some(mut g) = groups.next() {
            g.add_dimension("d", 1, NC_NOERR, handle).unwrap();
            handle += 1;
        }
        assert!(groups.next().is_none());
    }
    {
        let mut variables = root.variables_mut();
        let mut seen = 0;
        while let Some(mut v) = variables.next() {
            v.add_attribute("n", AttrValue::Ints(vec![seen]), NC_NOERR).unwrap();
            seen += 1;
        }
        assert_eq!(seen, 2);
    }
    let g = root.as_group();
    for (i, child) in g.groups().iter().enumerate() {
        let d = child.dimension("d").unwrap().unwrap();
        assert_eq!(d.identifier().dimid, 10 + i as i32);
    }
    assert_eq!(g.variables()[1].attributes()[0].value(), Ok(&AttrValue::Ints(vec![1])));
}

#[test]
fn container_forwards_to_its_root() {
    let mut file = File::create("fwd.nc", 1);
    {
        let mut root = file.root_mut();
        root.add_dimension("x", 4, NC_NOERR, 0).unwrap();
        root.add_variable("v", SimpleType::U8, &["x"], NC_NOERR, 0).unwrap();
        root.add_attribute("a", AttrValue::Ints(vec![1]), NC_NOERR).unwrap();
        root.add_group("g", NC_NOERR, 2).unwrap();
    }
    assert_eq!(file.name(), "fwd.nc");
    assert_eq!(file.ncid(), 1);
    assert!(file.is_writable());
    assert_eq!(file.dimensions().len(), 1);
    assert!(file.dimension("x").unwrap().is_some());
    assert_eq!(file.variables().len(), 1);
    assert!(file.variable("v").unwrap().is_some());
    assert_eq!(file.attributes().len(), 1);
    assert!(file.attribute("a").unwrap().is_some());
    assert_eq!(file.groups().len(), 1);
    assert!(file.group("g").unwrap().is_some());
    assert!(file.group("x").unwrap().is_none());
    assert_eq!(file.close(), Request::Close { ncid: 1 });
}
