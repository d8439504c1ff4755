use netcdf::attribute::{AttrValue, NC_GLOBAL};
use netcdf::engine::{RawAttribute, RawDimension, RawGroup, RawVariable, Request};
use netcdf::error::{Error, NC_EBADDIM, NC_EBADID, NC_ENAMEINUSE, NC_ENOTVAR, NC_NOERR};
use netcdf::file::File;
use netcdf::types::SimpleType;
use netcdf::{Dimension, Group, GroupMut, VariableMut};

// An engine that keeps a container in memory and answers as the storage
// engine would: it hands out handles, refuses a name that is in use, and
// knows the current length of every dimension.

struct StubVariable {
    name: String,
    xtype: i32,
    dimids: Vec<i32>,
    attributes: Vec<(String, AttrValue)>,
}

struct StubGroup {
    ncid: i32,
    name: String,
    dimensions: Vec<(i32, String, usize, bool)>,
    variables: Vec<StubVariable>,
    attributes: Vec<(String, AttrValue)>,
    children: Vec<usize>,
}

struct Stub {
    groups: Vec<StubGroup>,
    next_dimid: i32,
    calls: usize,
}

struct Reply {
    status: i32,
    id: i32,
    len: usize,
}

fn text(buffer: &[u8]) -> String {
    let end = buffer.iter().position(|&b| b == 0).unwrap_or(buffer.len());
    String::from_utf8(buffer[..end].to_vec()).unwrap()
}

fn buffer(name: &str) -> Vec<u8> {
    let mut bytes = name.as_bytes().to_vec();
    bytes.push(0);
    bytes
}

impl Stub {
    fn new(ncid: i32) -> Stub {
        let root = StubGroup {
            ncid,
            name: "/".to_string(),
            dimensions: Vec::new(),
            variables: Vec::new(),
            attributes: Vec::new(),
            children: Vec::new(),
        };
        Stub { groups: vec![root], next_dimid: 0, calls: 0 }
    }

    fn group(&self, ncid: i32) -> Option<usize> {
        self.groups.iter().position(|g| g.ncid == ncid)
    }

    fn perform(&mut self, request: &Request, value: Option<&AttrValue>) -> Reply {
        self.calls += 1;
        let failed = |status: i32| Reply { status, id: -1, len: 0 };
        match request {
            Request::DefineDimension { ncid, name, len } => {
                let Some(g) = self.group(*ncid) else { return failed(NC_EBADID) };
                let name = text(name);
                if self.groups[g].dimensions.iter().any(|d| d.1 == name) {
                    return failed(NC_ENAMEINUSE);
                }
                let dimid = self.next_dimid;
                self.next_dimid += 1;
                self.groups[g].dimensions.push((dimid, name, *len, *len == 0));
                Reply { status: NC_NOERR, id: dimid, len: 0 }
            }
            Request::DefineGroup { ncid, name } => {
                let Some(g) = self.group(*ncid) else { return failed(NC_EBADID) };
                let name = text(name);
                if self.groups[g].children.iter().any(|&c| self.groups[c].name == name) {
                    return failed(NC_ENAMEINUSE);
                }
                let grpid = *ncid + 1 + self.groups.len() as i32;
                let at = self.groups.len();
                self.groups.push(StubGroup {
                    ncid: grpid,
                    name,
                    dimensions: Vec::new(),
                    variables: Vec::new(),
                    attributes: Vec::new(),
                    children: Vec::new(),
                });
                self.groups[g].children.push(at);
                Reply { status: NC_NOERR, id: grpid, len: 0 }
            }
            Request::DefineVariable { ncid, name, xtype, dimids } => {
                let Some(g) = self.group(*ncid) else { return failed(NC_EBADID) };
                let name = text(name);
                if self.groups[g].variables.iter().any(|v| v.name == name) {
                    return failed(NC_ENAMEINUSE);
                }
                let known =
                    |id: &i32| self.groups.iter().any(|g| g.dimensions.iter().any(|d| d.0 == *id));
                if !dimids.iter().all(known) {
                    return failed(NC_EBADDIM);
                }
                let varid = self.groups[g].variables.len() as i32;
                self.groups[g].variables.push(StubVariable {
                    name,
                    xtype: *xtype,
                    dimids: dimids.clone(),
                    attributes: Vec::new(),
                });
                Reply { status: NC_NOERR, id: varid, len: 0 }
            }
            Request::PutAttribute { ncid, varid, name, xtype, len } => {
                let Some(g) = self.group(*ncid) else { return failed(NC_EBADID) };
                let value = value.unwrap().clone();
                assert_eq!(value.xtype(), *xtype);
                assert_eq!(value.len(), *len);
                let attributes = if *varid == NC_GLOBAL {
                    &mut self.groups[g].attributes
                } else {
                    match self.groups[g].variables.get_mut(*varid as usize) {
                        Some(v) => &mut v.attributes,
                        None => return failed(NC_ENOTVAR),
                    }
                };
                let name = text(name);
                match attributes.iter_mut().find(|a| a.0 == name) {
                    Some(a) => a.1 = value,
                    None => attributes.push((name, value)),
                }
                Reply { status: NC_NOERR, id: *varid, len: 0 }
            }
            Request::InquireDimensionLength { dimid, .. } => {
                for g in &self.groups {
                    if let Some(d) = g.dimensions.iter().find(|d| d.0 == *dimid) {
                        return Reply { status: NC_NOERR, id: *dimid, len: d.2 };
                    }
                }
                failed(NC_EBADDIM)
            }
            _ => failed(-36),
        }
    }

    // A write at `index` along a dimension that grows.
    fn write_at(&mut self, dimid: i32, index: usize) {
        for g in &mut self.groups {
            for d in &mut g.dimensions {
                if d.0 == dimid && d.3 && d.2 <= index {
                    d.2 = index + 1;
                }
            }
        }
    }

    fn report(&self, at: usize) -> RawGroup {
        let g = &self.groups[at];
        let attributes = |list: &Vec<(String, AttrValue)>| {
            list.iter()
                .map(|(name, value)| RawAttribute {
                    name: buffer(name),
                    xtype: value.xtype(),
                    value: Some(value.clone()),
                })
                .collect::<Vec<_>>()
        };
        RawGroup {
            grpid: g.ncid,
            name: buffer(&g.name),
            dimensions: g
                .dimensions
                .iter()
                .map(|d| RawDimension { dimid: d.0, name: buffer(&d.1), len: d.2 })
                .collect(),
            unlimited: g.dimensions.iter().filter(|d| d.3).map(|d| d.0).collect(),
            types: Vec::new(),
            variables: g
                .variables
                .iter()
                .enumerate()
                .map(|(varid, v)| RawVariable {
                    varid: varid as i32,
                    name: buffer(&v.name),
                    xtype: v.xtype,
                    dimids: v.dimids.clone(),
                    attributes: attributes(&v.attributes),
                })
                .collect(),
            attributes: attributes(&g.attributes),
            groups: g.children.iter().map(|&c| self.report(c)).collect(),
        }
    }
}

// The operations as a program makes them: ask the library what to hand to
// the engine, make the call, and hand the answer back to the library.

fn add_dimension(
    view: &mut GroupMut<'_>,
    stub: &mut Stub,
    name: &str,
    len: usize,
) -> Result<Dimension, Error> {
    let request = view.dimension_request(name, len)?;
    let reply = stub.perform(&request, None);
    view.add_dimension(name, len, reply.status, reply.id)
}

fn add_group<'a>(
    view: &'a mut GroupMut<'_>,
    stub: &mut Stub,
    name: &str,
) -> Result<GroupMut<'a>, Error> {
    let request = view.group_request(name)?;
    let reply = stub.perform(&request, None);
    view.add_group(name, reply.status, reply.id)
}

fn add_variable<'a>(
    view: &'a mut GroupMut<'_>,
    stub: &mut Stub,
    name: &str,
    kind: SimpleType,
    dims: &[&str],
) -> Result<VariableMut<'a>, Error> {
    let request = view.variable_request(name, kind, dims)?;
    let reply = stub.perform(&request, None);
    view.add_variable(name, kind, dims, reply.status, reply.id)
}

fn add_attribute(
    view: &mut GroupMut<'_>,
    stub: &mut Stub,
    name: &str,
    value: AttrValue,
) -> Result<(), Error> {
    let request = view.attribute_request(name, &value)?;
    let reply = stub.perform(&request, Some(&value));
    view.add_attribute(name, value, reply.status).map(|_| ())
}

fn current_len(dimension: &Dimension, stub: &mut Stub) -> Result<usize, Error> {
    match dimension.length_request() {
        Some(request) => {
            let reply = stub.perform(&request, None);
            dimension.len(reply.status, reply.len)
        }
        None => dimension.len(NC_NOERR, 0),
    }
}

fn describe(group: &Group<'_>, out: &mut Vec<String>) {
    out.push(format!("group {} {}", group.name(), group.id()));
    for d in group.dimensions() {
        out.push(format!("dim {} {:?} {:?}", d.name(), d.is_unlimited(), d.identifier()));
    }
    for v in group.variables() {
        let dims: Vec<_> = v.dimensions().iter().map(|d| d.identifier()).collect();
        out.push(format!("var {} {} {} {:?}", v.name(), v.varid(), v.type_id(), dims));
        for a in v.attributes() {
            out.push(format!("var attr {} {:?}", a.name(), a.value().unwrap()));
        }
    }
    for a in group.attributes() {
        out.push(format!("attr {} {:?}", a.name(), a.value().unwrap()));
    }
    for child in group.groups() {
        describe(&child, out);
    }
}

fn build(file: &mut File, stub: &mut Stub) {
    let mut root = file.root_mut();
    add_dimension(&mut root, stub, "time", 0).unwrap();
    add_dimension(&mut root, stub, "x", 4).unwrap();
    add_attribute(&mut root, stub, "title", AttrValue::Str("built".to_string())).unwrap();
    {
        let mut v = add_variable(&mut root, stub, "v", SimpleType::F64, &["time", "x"]).unwrap();
        let value = AttrValue::Doubles(vec![1, 2]);
        let request = v.attribute_request("range", &value).unwrap();
        let reply = stub.perform(&request, Some(&value));
        v.add_attribute("range", value, reply.status).unwrap();
    }
    let mut child = add_group(&mut root, stub, "child").unwrap();
    add_dimension(&mut child, stub, "y", 2).unwrap();
    add_variable(&mut child, stub, "w", SimpleType::I32, &["y", "x"]).unwrap();
    add_group(&mut child, stub, "deep").unwrap();
    add_group(&mut root, stub, "other").unwrap();
    add_attribute(&mut root, stub, "title", AttrValue::Str("rebuilt".to_string())).unwrap();
}

#[test]
fn what_was_built_is_what_is_opened() {
    let mut stub = Stub::new(100);
    let mut file = File::create("built.nc", 100);
    build(&mut file, &mut stub);
    let reopened = File::open("built.nc", &stub.report(0)).unwrap();
    let mut built = Vec::new();
    describe(&file.root(), &mut built);
    let mut opened = Vec::new();
    describe(&reopened.root(), &mut opened);
    assert_eq!(built, opened);
    assert!(built.contains(&"attr title Str(\"rebuilt\")".to_string()));
    assert_eq!(built.iter().filter(|line| line.starts_with("group ")).count(), 4);
}

#[test]
fn the_engine_is_not_asked_what_the_library_can_refuse() {
    let mut stub = Stub::new(100);
    let mut file = File::create("built.nc", 100);
    build(&mut file, &mut stub);
    let calls = stub.calls;
    let mut root = file.root_mut();
    assert_eq!(add_dimension(&mut root, &mut stub, "x", 9).unwrap_err(), Error::AlreadyExists);
    assert_eq!(add_group(&mut root, &mut stub, "child").unwrap_err(), Error::AlreadyExists);
    assert_eq!(
        add_variable(&mut root, &mut stub, "v", SimpleType::U8, &[]).unwrap_err(),
        Error::AlreadyExists
    );
    assert_eq!(
        add_variable(&mut root, &mut stub, "n", SimpleType::U8, &["y"]).unwrap_err(),
        Error::NotFound
    );
    assert_eq!(
        add_dimension(&mut root, &mut stub, &"n".repeat(300), 1).unwrap_err(),
        Error::InvalidName
    );
    assert_eq!(
        add_attribute(&mut root, &mut stub, "a\0", AttrValue::Ints(vec![])).unwrap_err(),
        Error::InvalidName
    );
    assert_eq!(stub.calls, calls);
}

#[test]
fn the_engine_has_the_last_word() {
    // The engine knows of a dimension that the container was not told of:
    // the library asks, and the refusal of the engine comes back.
    let mut stub = Stub::new(100);
    let mut file = File::create("late.nc", 100);
    stub.perform(
        &Request::DefineDimension { ncid: 100, name: buffer("x"), len: 3 },
        None,
    );
    let mut root = file.root_mut();
    assert_eq!(add_dimension(&mut root, &mut stub, "x", 4).unwrap_err(), Error::AlreadyExists);
    assert_eq!(root.as_group().dimensions().len(), 0);
    assert!(add_dimension(&mut root, &mut stub, "y", 4).is_ok());
    assert_eq!(root.as_group().dimensions()[0].identifier().dimid, 1);
}

#[test]
fn a_growing_dimension_is_asked_each_time() {
    let mut stub = Stub::new(100);
    let mut file = File::create("grow.nc", 100);
    build(&mut file, &mut stub);
    let root = file.root();
    let time = root.dimension("time").unwrap().unwrap();
    let x = root.dimension("x").unwrap().unwrap();
    assert!(time.is_unlimited());
    assert_eq!(current_len(time, &mut stub), Ok(0));
    let calls = stub.calls;
    // A fixed dimension is not asked for.
    assert_eq!(current_len(x, &mut stub), Ok(4));
    assert_eq!(stub.calls, calls);
    // A write through the variable extends the dimension to index 9.
    let v = root.variable("v").unwrap().unwrap();
    stub.write_at(v.dimensions()[0].identifier().dimid, 9);
    assert_eq!(current_len(time, &mut stub), Ok(10));
    assert_eq!(current_len(&v.dimensions()[0], &mut stub), Ok(10));
    assert_eq!(stub.calls, calls + 2);
    // A write along a fixed dimension changes nothing.
    stub.write_at(x.identifier().dimid, 9);
    assert_eq!(current_len(x, &mut stub), Ok(4));
    // A handle that the engine does not know is not a length of zero.
    let stale = Dimension::new("gone".to_string(), 0, 100, 77);
    assert_eq!(current_len(&stale, &mut stub), Err(Error::NotFound));
}
