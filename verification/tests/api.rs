use ethersync_protocol::bindings::api::{read_api, replace_text, ApiModel};
use ethersync_protocol::bindings::glue::{c_abi_source, swift_bridge_source};
use ethersync_protocol::bindings::sig::{FnSig, Record};

const SOURCE: &str = r#"
pub struct Reading { pub hours: u8, pub frames: u32 }
pub struct Engine { inner: u8 }
pub struct Clock { inner: u8 }
struct Hidden;
#[cfg(feature = "native")]
pub struct Native { inner: u8 }
pub fn engine_new() -> Result<Engine> { todo!() }
pub fn engine_read(engine: &Engine, name: &str) -> Reading { todo!() }
#[cfg(feature = "native")]
pub fn engine_native(engine: &mut Engine, data: &[u8]) {}
fn private_helper() {}
pub const LIMIT: u32 = 4;
"#;

fn model(source: &str, native: bool) -> Result<ApiModel, String> {
    read_api(source, native)
}

fn texts(v: &[String]) -> Vec<&str> {
    v.iter().map(|s| s.as_str()).collect()
}

#[test]
fn api_items_sort_into_handles_records_and_functions() {
    let m = model(SOURCE, false).unwrap();
    assert_eq!(texts(&m.opaque), vec!["Clock", "Engine"]);
    assert_eq!(m.records.len(), 1);
    assert_eq!(m.records[0].0, "Reading");
    assert_eq!(
        m.records[0].1,
        vec![("hours".to_string(), "u8".to_string()), ("frames".to_string(), "u32".to_string())]
    );
    let names: Vec<&str> = m.functions.iter().map(|f| f.name.as_str()).collect();
    assert_eq!(names, vec!["engine_new", "engine_read"]);
    assert_eq!((m.functions[0].ret.as_str(), m.functions[0].fallible), ("Engine", true));
    assert!(m.functions[0].args.is_empty());
    assert_eq!(
        m.functions[1].args,
        vec![("engine".to_string(), "&Engine".to_string()), ("name".to_string(), "&str".to_string())]
    );
    assert_eq!((m.functions[1].ret.as_str(), m.functions[1].fallible), ("Reading", false));
    assert!(m.manifest.starts_with("Generated from src/api.rs. Do not edit generated files.\n"));
    let compact = m.manifest.replace(' ', "");
    assert!(compact.contains("fnengine_new()->Result<Engine>\n"));
    assert!(compact.contains("fnengine_read(engine:&Engine,name:&str)->Reading\n"));
    assert_eq!(m.manifest.lines().count(), 3);
}

#[test]
fn native_items_join_when_the_feature_is_on() {
    let m = model(SOURCE, true).unwrap();
    assert_eq!(texts(&m.opaque), vec!["Clock", "Engine", "Native"]);
    let f = &m.functions[2];
    assert_eq!(f.name, "engine_native");
    assert_eq!(
        f.args,
        vec![("engine".to_string(), "&mutEngine".to_string()), ("data".to_string(), "&[u8]".to_string())]
    );
    assert_eq!((f.ret.as_str(), f.fallible), ("()", false));
}

#[test]
fn later_records_replace_earlier_ones_of_the_same_name() {
    let m = model("pub struct B { pub x: u8 }\npub struct A { pub y: u8 }\npub struct B { pub z: u64 }\n", false)
        .unwrap();
    let names: Vec<&str> = m.records.iter().map(|r| r.0.as_str()).collect();
    assert_eq!(names, vec!["A", "B"]);
    assert_eq!(m.records[1].1, vec![("z".to_string(), "u64".to_string())]);
}

#[test]
fn api_schema_errors_are_reported() {
    let err = |s: &str| model(s, true).err().unwrap();
    assert_eq!(err("pub fn (("), "the API source is not valid Rust");
    assert_eq!(err("#[cfg(test)] pub fn x() {}"), "unsupported binding feature gate");
    assert_eq!(err("pub struct T(pub u8);"), "called `Option::unwrap()` on a `None` value");
    assert_eq!(err("pub async fn x() {}"), "foreign API functions must be safe, synchronous and non-generic");
    assert_eq!(err("pub unsafe fn x() {}"), "foreign API functions must be safe, synchronous and non-generic");
    assert_eq!(err("pub fn x<T>() {}"), "foreign API functions must be safe, synchronous and non-generic");
    assert_eq!(err("pub fn x() -> Vec<u32> {}"), "unsupported return Vec<u32>");
    assert_eq!(err("pub fn x(&self) {}"), "receivers are not supported");
    assert_eq!(err("pub fn x((a, b): (u8, u8)) {}"), "argument pattern unsupported");
    assert_eq!(err("pub fn x(a: String) {}"), "unsupported argument String");
    assert_eq!(err("pub fn x(a: &Missing) {}"), "unsupported argument &Missing");
    assert_eq!(err("pub struct R { pub s: String }"), "records must contain fixed-width primitives");
    assert!(model("#[cfg(test)] fn x() {}\nstruct Private(u8);", true).is_ok());
}

#[test]
fn a_native_gate_excludes_the_item_without_the_feature() {
    let m = model("#[cfg(feature = \"native\")]\npub fn x(a: String) {}", false).unwrap();
    assert!(m.functions.is_empty());
    assert!(model("#[cfg(feature = \"native\")]\npub fn x(a: String) {}", true).is_err());
}

#[test]
fn replace_text_replaces_left_to_right() {
    assert_eq!(replace_text("&mutA,&mutB", "&mut", "&mut "), "&mut A,&mut B");
    assert_eq!(replace_text("fn f()->()", "->()", ""), "fn f()");
    assert_eq!(replace_text("aaa", "aa", "b"), "ba");
    assert_eq!(replace_text("", "x", "y"), "");
}

fn glue_inputs() -> (Vec<String>, Vec<Record>, Vec<FnSig>) {
    let sig = |name: &str, args: &[(&str, &str)], ret: &str, fallible: bool| FnSig {
        name: name.to_string(),
        args: args.iter().map(|(n, t)| (n.to_string(), t.to_string())).collect(),
        ret: ret.to_string(),
        fallible,
    };
    (
        vec!["Engine".to_string()],
        vec![("Reading".to_string(), vec![("hours".to_string(), "u8".to_string())])],
        vec![
            sig("engine_read", &[("engine", "&Engine"), ("name", "&str")], "Reading", false),
            sig("engine_stop", &[("engine", "&mutEngine")], "()", true),
            sig("ping", &[], "()", false),
        ],
    )
}

#[test]
fn swift_bridge_module_declares_and_forwards() {
    let (opaque, records, functions) = glue_inputs();
    let expected = String::new()
        + "#[swift_bridge::bridge] mod ffi {\n"
        + "#[swift_bridge(swift_repr = \"struct\")] struct Reading{pub hours: u8,}\n"
        + "extern \"Rust\" {\n"
        + "type Engine;\n"
        + "fn engine_read(engine:&Engine,name:String)->Reading;\n"
        + "fn engine_stop(engine:&mut Engine)->Result<(),String>;\n"
        + "fn ping();\n"
        + "}}\n"
        + "impl From<crate::api::Reading> for ffi::Reading {fn from(value:crate::api::Reading)->Self{Self{hours:value.hours,}}}"
        + "use crate::api::Engine;\n"
        + "fn engine_read(engine:&Engine,name:String)->ffi::Reading{crate::api::engine_read(engine,&name).into()}\n"
        + "fn engine_stop(engine:&mut Engine)->Result<(),String>{crate::api::engine_stop(engine)}\n"
        + "fn ping(){crate::api::ping()}\n";
    assert_eq!(swift_bridge_source(&opaque, &records, &functions), expected);
}

#[test]
fn c_abi_shims_check_their_parameters() {
    let (opaque, records, functions) = glue_inputs();
    let expected = String::new()
        + "use crate::c_support::*;\n"
        + "#[repr(C)] #[derive(Default)] pub struct Reading{pub hours: u8,}\n"
        + "pub struct Engine{_private:()}\n"
        + "#[unsafe(no_mangle)] pub unsafe extern \"C\" fn tidkod_engine_free(value:*mut Engine){if !value.is_null(){unsafe{drop(Box::from_raw(value.cast::<crate::api::Engine>()))}}}\n"
        + "#[unsafe(no_mangle)] pub unsafe extern \"C\" fn tidkod_engine_read(engine:*const Engine,name:*const u8,name_len:usize,out:*mut Reading,error:*mut *mut TKBuffer)->i32{let call=||{"
        + "let engine=unsafe{(engine as *const crate::api::Engine).as_ref()}.ok_or(\"null engine\")?;"
        + "let name=unsafe{input(name,name_len)}?;let name=std::str::from_utf8(name).map_err(|e|e.to_string())?;"
        + "if out.is_null(){return Err(\"null output\".into());}"
        + "let value={let value=crate::api::engine_read(engine,name);Reading{hours:value.hours,}};unsafe{out.write(value);}"
        + "Ok(())};unsafe{invoke(error,call)}}\n"
        + "#[unsafe(no_mangle)] pub unsafe extern \"C\" fn tidkod_engine_stop(engine:*mut Engine,error:*mut *mut TKBuffer)->i32{let call=||{"
        + "let engine=unsafe{(engine as *mut crate::api::Engine).as_mut()}.ok_or(\"null engine\")?;"
        + "crate::api::engine_stop(engine)?;"
        + "Ok(())};unsafe{invoke(error,call)}}\n"
        + "#[unsafe(no_mangle)] pub unsafe extern \"C\" fn tidkod_ping(error:*mut *mut TKBuffer)->i32{let call=||{"
        + "crate::api::ping();"
        + "Ok(())};unsafe{invoke(error,call)}}\n";
    assert_eq!(c_abi_source(&opaque, &records, &functions), expected);
}

#[test]
fn c_abi_shims_box_handles_and_buffer_text() {
    let sig = |name: &str, ret: &str| FnSig { name: name.to_string(), args: vec![], ret: ret.to_string(), fallible: true };
    let opaque = vec!["Engine".to_string()];
    let s = c_abi_source(&opaque, &Vec::new(), &vec![sig("engine_new", "Engine"), sig("version", "String"), sig("data", "Vec<u8>")]);
    assert!(s.contains("fn tidkod_engine_new(out:*mut *mut Engine,error:*mut *mut TKBuffer)->i32{let call=||{if out.is_null(){return Err(\"null output\".into());}let value=Box::into_raw(Box::new(crate::api::engine_new()?)).cast::<Engine>();unsafe{out.write(value);}Ok(())};"));
    assert!(s.contains("fn tidkod_version(out:*mut *mut TKBuffer,error:*mut *mut TKBuffer)->i32{let call=||{if out.is_null(){return Err(\"null output\".into());}let value=buffer(crate::api::version()?.into_bytes());"));
    assert!(s.contains("let value=buffer(crate::api::data()?);"));
}
