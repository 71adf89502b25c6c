use ethersync_protocol::bindings::c::{c_wrappers_header, C_BYTES, C_PRELUDE};
use ethersync_protocol::bindings::cpp::{cpp_header, is_instance, method_name, owner_of, typ, CPP_PRELUDE};
use ethersync_protocol::bindings::sig::{FnSig, Record};
use ethersync_protocol::bindings::csharp::{
    csharp_names_ok, csharp_source, parts_nonempty_of, pascal, snake as csharp_snake, ty,
    CS_PRELUDE, CS_TIMECODE,
};
use ethersync_protocol::bindings::ffi::{check_span, status, EsBuffer, Outcome};
use ethersync_protocol::bindings::schema::{
    compact, output, primitive, starts_with, valid_argument, valid_field, valid_return,
};
use ethersync_protocol::bindings::wrappers::{
    base, camel, scalar, snake, swift_wrappers, SW_ENUMS, SW_PRELUDE,
};
use ethersync_protocol::bindings::{same_text, suffix};

#[test]
fn suffix_names_unit_and_bytes() {
    assert_eq!(suffix("()"), "Unit");
    assert_eq!(suffix("Vec<u8>"), "Bytes");
    assert_eq!(suffix("u64"), "u64");
    assert_eq!(suffix(""), "");
}

#[test]
fn same_text_compares_characters() {
    assert!(same_text("Vec<u8>", "Vec<u8>"));
    assert!(!same_text("Vec<u8>", "Vec<u16>"));
    assert!(!same_text("ab", "abc"));
    assert!(same_text("", ""));
}

#[test]
fn base_strips_references_then_mut() {
    assert_eq!(base("&Leader"), "Leader");
    assert_eq!(base("&&Leader"), "Leader");
    assert_eq!(base("&mutFollower"), "Follower");
    assert_eq!(base("&mut Follower"), " Follower");
    assert_eq!(base("mutmutX"), "X");
    assert_eq!(base("Timing"), "Timing");
    assert_eq!(base(""), "");
}

#[test]
fn scalar_maps_swift_and_c_names() {
    assert_eq!(scalar("()", true), "Void");
    assert_eq!(scalar("()", false), "void");
    assert_eq!(scalar("bool", true), "Bool");
    assert_eq!(scalar("bool", false), "bool");
    assert_eq!(scalar("u8", true), "UInt8");
    assert_eq!(scalar("u8", false), "uint8_t");
    assert_eq!(scalar("u32", true), "UInt32");
    assert_eq!(scalar("u32", false), "uint32_t");
    assert_eq!(scalar("u64", true), "UInt64");
    assert_eq!(scalar("u64", false), "uint64_t");
    assert_eq!(scalar("i32", true), "Int32");
    assert_eq!(scalar("i32", false), "int32_t");
    assert_eq!(scalar("i64", true), "Int64");
    assert_eq!(scalar("i64", false), "int64_t");
    assert_eq!(scalar("f64", true), "Double");
    assert_eq!(scalar("f64", false), "double");
    assert_eq!(scalar("Timing", true), "Timing");
}

#[test]
fn wrapper_snake_case_splits_at_capitals() {
    assert_eq!(snake("TimecodeFormat"), "timecode_format");
    assert_eq!(snake("Reading"), "reading");
    assert_eq!(snake("already_snake"), "already_snake");
    assert_eq!(snake(""), "");
}

#[test]
fn camel_case_joins_parts() {
    assert_eq!(camel("leader_options_new"), "leaderOptionsNew");
    assert_eq!(camel("start"), "start");
    assert_eq!(camel("a__b"), "aB");
    assert_eq!(camel("trailing_"), "trailing");
}

#[test]
fn csharp_pascal_case_capitalises_parts() {
    assert_eq!(pascal("leader_options_new"), "LeaderOptionsNew");
    assert_eq!(pascal("start"), "Start");
    assert_eq!(pascal("ß_x"), "SSX");
}

#[test]
fn csharp_snake_case_lowers_with_unicode() {
    assert_eq!(csharp_snake("SourceHealth"), "source_health");
    assert_eq!(csharp_snake("Ä"), "ä");
    assert_eq!(csharp_snake("aÄ"), "a_ä");
}

#[test]
fn csharp_types_follow_the_table() {
    assert_eq!(ty("()"), "void");
    assert_eq!(ty("u8"), "byte");
    assert_eq!(ty("u32"), "uint");
    assert_eq!(ty("u64"), "ulong");
    assert_eq!(ty("i32"), "int");
    assert_eq!(ty("i64"), "long");
    assert_eq!(ty("f64"), "double");
    assert_eq!(ty("&str"), "string");
    assert_eq!(ty("String"), "string");
    assert_eq!(ty("&[u8]"), "ReadOnlySpan<byte>");
    assert_eq!(ty("Vec<u8>"), "byte[]");
    assert_eq!(ty("&mutLeader"), "Leader");
    assert_eq!(ty("bool"), "bool");
}

#[test]
fn types_are_compared_without_spaces() {
    assert_eq!(compact("& mut Leader"), "&mutLeader");
    assert_eq!(compact("Result < Vec < u8 > >"), "Result<Vec<u8>>");
    assert_eq!(compact(""), "");
}

#[test]
fn prefixes_are_matched_by_characters() {
    assert!(starts_with("Result<u8>", "Result<"));
    assert!(starts_with("abc", ""));
    assert!(!starts_with("Res", "Result<"));
    assert!(!starts_with("result<u8>", "Result<"));
}

#[test]
fn fallible_outputs_unwrap_their_result() {
    assert_eq!(output("Result<Leader>"), ("Leader".to_string(), true));
    assert_eq!(output("Result<()>"), ("()".to_string(), true));
    assert_eq!(output("Result<Vec<u8>>"), ("Vec<u8>".to_string(), true));
    assert_eq!(output("u64"), ("u64".to_string(), false));
    assert_eq!(output("()"), ("()".to_string(), false));
}

#[test]
fn schema_accepts_only_supported_types() {
    let records = vec!["Reading".to_string(), "Timing".to_string()];
    let opaque = vec!["Leader".to_string(), "Follower".to_string()];
    assert!(primitive("f64") && primitive("()") && !primitive("usize"));
    assert!(valid_return("()", &records, &opaque));
    assert!(valid_return("Reading", &records, &opaque));
    assert!(valid_return("Leader", &records, &opaque));
    assert!(valid_return("String", &records, &opaque));
    assert!(valid_return("Vec<u8>", &records, &opaque));
    assert!(!valid_return("&str", &records, &opaque));
    assert!(!valid_return("usize", &records, &opaque));
    assert!(valid_argument("u32", &opaque));
    assert!(!valid_argument("()", &opaque));
    assert!(valid_argument("&str", &opaque));
    assert!(valid_argument("&[u8]", &opaque));
    assert!(valid_argument("&Leader", &opaque));
    assert!(valid_argument("&mutFollower", &opaque));
    assert!(!valid_argument("&Reading", &opaque));
    assert!(!valid_argument("String", &opaque));
    assert!(valid_field("i64"));
    assert!(!valid_field("()"));
    assert!(!valid_field("String"));
}

#[test]
fn cpp_types_follow_the_table() {
    assert_eq!(typ("String"), "std::string");
    assert_eq!(typ("&str"), "std::string_view");
    assert_eq!(typ("Vec<u8>"), "std::vector<uint8_t>");
    assert_eq!(typ("&[u8]"), "const std::vector<uint8_t>&");
    assert_eq!(typ("&Leader"), "Leader&");
    assert_eq!(typ("&mutFollower"), "Follower&");
    assert_eq!(typ("u64"), "uint64_t");
    assert_eq!(typ("()"), "void");
    assert_eq!(typ("Reading"), "Reading");
}

#[test]
fn functions_belong_to_the_longest_matching_owner() {
    let opaque = vec!["Leader".to_string(), "LeaderOptions".to_string(), "Follower".to_string()];
    assert_eq!(owner_of("leader_options_new", &opaque), Some(1));
    assert_eq!(owner_of("leader_start", &opaque), Some(0));
    assert_eq!(owner_of("follower_read", &opaque), Some(2));
    assert_eq!(owner_of("version", &opaque), None);
    let twins = vec!["Ab".to_string(), "Ab".to_string()];
    assert_eq!(owner_of("ab_x", &twins), Some(1));
}

#[test]
fn methods_drop_the_owner_prefix() {
    assert_eq!(method_name("leader_options_new", "LeaderOptions"), "create");
    assert_eq!(method_name("leader_start", "Leader"), "start");
    assert_eq!(method_name("leader_options_bind", "LeaderOptions"), "bind");
}

#[test]
fn instance_methods_take_their_owner_first() {
    assert!(is_instance(Some("&Leader"), "Leader"));
    assert!(is_instance(Some("&mutLeader"), "Leader"));
    assert!(!is_instance(Some("Leader"), "Leader"));
    assert!(!is_instance(Some("&Follower"), "Leader"));
    assert!(!is_instance(None, "Leader"));
}

#[test]
fn buffers_lend_their_bytes() {
    let b = EsBuffer::new(vec![1, 2, 3]);
    assert_eq!(b.len(), 3);
    assert_eq!(b.data(), &[1, 2, 3]);
    assert_eq!(EsBuffer::new(Vec::new()).len(), 0);
}

#[test]
fn byte_spans_need_a_pointer_unless_empty() {
    assert_eq!(check_span(true, 0), Ok(()));
    assert_eq!(check_span(false, 0), Ok(()));
    assert_eq!(check_span(false, 16), Ok(()));
    assert_eq!(check_span(true, 16), Err("invalid byte span".to_string()));
    assert_eq!(check_span(false, isize::MAX as usize + 1), Err("invalid byte span".to_string()));
}

#[test]
fn operations_report_status_and_message() {
    assert_eq!(status(Outcome::Done), (0, None));
    assert_eq!(status(Outcome::Failed("discovery index".to_string())), (1, Some("discovery index".to_string())));
    assert_eq!(status(Outcome::Panicked), (2, Some("Rust panic in FFI operation".to_string())));
}

fn sig(name: &str, args: &[(&str, &str)], ret: &str, fallible: bool) -> FnSig {
    FnSig {
        name: name.to_string(),
        args: args.iter().map(|(n, t)| (n.to_string(), t.to_string())).collect(),
        ret: ret.to_string(),
        fallible,
    }
}

fn names(v: &[&str]) -> Vec<String> {
    v.iter().map(|s| s.to_string()).collect()
}

#[test]
fn cpp_header_wraps_each_handle_and_its_functions() {
    let opaque = names(&["Engine"]);
    let functions = vec![
        sig("engine_version", &[("engine", "&Engine")], "u32", false),
        sig("engine_new", &[], "Engine", true),
    ];
    let expected = String::from(CPP_PRELUDE)
        + "class Engine;\n"
        + "class Engine {\n    ::Engine* raw_;\npublic:\n    explicit Engine(::Engine* raw):raw_(raw) {}\n    ~Engine() { ethersync_engine_free(raw_); }\n    Engine(Engine&& other) noexcept:raw_(std::exchange(other.raw_,nullptr)) {}\n    Engine& operator=(Engine&& other) noexcept {\n        if(this!=&other) { ethersync_engine_free(raw_); raw_=std::exchange(other.raw_,nullptr); }\n        return *this;\n    }\n    Engine(const Engine&)=delete;\n    Engine& operator=(const Engine&)=delete;\n    ::Engine* raw() const { return raw_; }\n"
        + " uint32_t version();\n"
        + "static Result<Engine> create();\n"
        + "};\n"
        + "inline uint32_t Engine::version() {\ndetail::Buffer error;\nuint32_t value{};\nauto status=::ethersync_engine_version(raw_,&value,&error.raw);\nif(status) std::abort();\nreturn value;\n}\n"
        + "inline Result<Engine> Engine::create() {\ndetail::Buffer error;\n::Engine* value{};\nauto status=::ethersync_engine_new(&value,&error.raw);\nif(status) return Result<Engine>::failure(error.text());\nreturn Result<Engine>(Engine(value));\n}\n"
        + "}\n";
    assert_eq!(cpp_header(&opaque, &Vec::new(), &functions), Ok(expected));
}

#[test]
fn cpp_header_passes_text_and_bytes_as_spans() {
    let opaque = names(&["Leader"]);
    let functions = vec![sig(
        "leader_send",
        &[("leader", "&Leader"), ("name", "&str"), ("data", "&[u8]")],
        "()",
        true,
    )];
    let header = cpp_header(&opaque, &Vec::new(), &functions).unwrap();
    assert!(header.contains(" Result<void> send(std::string_view name, const std::vector<uint8_t>& data);\n"));
    assert!(header.contains("auto status=::ethersync_leader_send(raw_,reinterpret_cast<const uint8_t*>(name.data()), name.size(),data.data(), data.size(),&error.raw);\nif(status) return Result<void>::failure(error.text());\nreturn Result<void>();\n}\n"));
}

#[test]
fn cpp_header_aliases_records_without_handles() {
    let records: Vec<Record> = vec![("Reading".to_string(), vec![("hours".to_string(), "u8".to_string())])];
    let expected = String::from(CPP_PRELUDE) + "using Reading = ::Reading;\n" + "}\n";
    assert_eq!(cpp_header(&Vec::new(), &records, &Vec::new()), Ok(expected));
}

#[test]
fn cpp_header_refuses_a_function_without_owner() {
    let opaque = names(&["Engine"]);
    let functions = vec![sig("leader_start", &[], "()", false)];
    assert_eq!(
        cpp_header(&opaque, &Vec::new(), &functions),
        Err("function needs an owning handle".to_string())
    );
}

#[test]
fn c_wrappers_header_declares_results_in_sorted_order() {
    let opaque = names(&["Engine"]);
    let functions = vec![
        sig("engine_version", &[("engine", "&Engine")], "u32", false),
        sig("ping", &[], "()", false),
    ];
    let expected = String::from(C_PRELUDE)
        + "typedef struct { Engine *raw; } TKEngine;\nstatic inline void tk_engine_dispose(TKEngine *v) { tidkod_engine_free(v->raw); v->raw = NULL; }\n"
        + C_BYTES
        + "typedef struct { int32_t status; TKBuffer *error;  } TKResultUnit;\n"
        + "typedef struct { int32_t status; TKBuffer *error; uint32_t value; } TKResultu32;\n"
        + "static inline TKResultu32 tk_engine_version(TKEngine engine) { TKResultu32 result = {0}; result.status = tidkod_engine_version(engine.raw, &result.value, &result.error); return result; }\n"
        + "static inline TKResultUnit tk_ping(void) { TKResultUnit result = {0}; result.status = tidkod_ping(&result.error); return result; }\n"
        + "#endif\n";
    assert_eq!(c_wrappers_header(&opaque, &functions), expected);
}

#[test]
fn c_wrappers_header_declares_each_return_type_once() {
    let functions = vec![
        sig("a", &[("text", "&str")], "String", false),
        sig("b", &[("data", "&[u8]")], "String", true),
    ];
    let header = c_wrappers_header(&Vec::new(), &functions);
    assert_eq!(header.matches("} TKResultString;\n").count(), 1);
    assert!(header.contains("static inline TKResultString tk_a(const char * text) { TKResultString result = {0}; result.status = tidkod_a((const uint8_t*)text, text ? strlen(text) : 0, &result.value, &result.error); return result; }\n"));
    assert!(header.contains("static inline TKResultString tk_b(TKBytes data) { TKResultString result = {0}; result.status = tidkod_b(data.data, data.len, &result.value, &result.error); return result; }\n"));
}

#[test]
fn swift_wrappers_emit_a_class_per_handle() {
    let opaque = names(&["Clock"]);
    let functions = vec![sig("clock_now", &[("clock", "&Clock")], "u64", false)];
    let expected = String::from(SW_PRELUDE)
        + SW_ENUMS
        + "/// Owned handle. Serialize access; this type is deliberately not Sendable.\npublic final class Clock { fileprivate let raw: TidkodSys.Clock\nfileprivate init(raw: TidkodSys.Clock) { self.raw = raw }\n"
        + "public func `now`()  -> UInt64 {\n"
        + "let value = TidkodSys.clock_now(raw)\nreturn value\n}\n"
        + "}\n";
    assert_eq!(swift_wrappers(&opaque, &Vec::new(), &functions), Ok(expected));
}

#[test]
fn swift_wrappers_wrap_fallible_calls_and_byte_buffers() {
    let opaque = names(&["Leader"]);
    let functions = vec![sig(
        "leader_send",
        &[("leader", "&Leader"), ("payload_data", "&[u8]")],
        "()",
        true,
    )];
    let s = swift_wrappers(&opaque, &Vec::new(), &functions).unwrap();
    assert!(s.contains("public func `send`(`payloadData`: [UInt8]) throws -> Void {\n"));
    assert!(s.contains("try checked { try `payloadData`.withUnsafeBufferPointer { buffer in try TidkodSys.leader_send(raw, buffer) } }\n}\n"));
}

#[test]
fn swift_wrappers_refuse_a_function_without_owner() {
    let opaque = names(&["Clock"]);
    let functions = vec![sig("leader_start", &[], "()", false)];
    assert_eq!(
        swift_wrappers(&opaque, &Vec::new(), &functions),
        Err("function needs an owning handle".to_string())
    );
}

#[test]
fn swift_wrappers_skip_discovery_and_need_no_owner_then() {
    let opaque = names(&["Discovery"]);
    let functions = vec![sig("leader_start", &[], "()", false)];
    let expected = String::from(SW_PRELUDE) + SW_ENUMS;
    assert_eq!(swift_wrappers(&opaque, &Vec::new(), &functions), Ok(expected));
}

#[test]
fn csharp_source_declares_handle_and_class() {
    let opaque = names(&["Engine"]);
    let functions = vec![sig("engine_version", &[("engine", "&Engine")], "u32", false)];
    let expected = String::from(CS_PRELUDE)
        + "internal sealed unsafe class EngineHandle : OwnedHandle { internal EngineHandle(Sys.Engine* value):base() {SetHandle((IntPtr)value);} protected override bool ReleaseHandle() {Sys.NativeMethods.ethersync_engine_free((Sys.Engine*)handle);return true;} }\n"
        + "public sealed unsafe partial class Engine : IDisposable { internal readonly EngineHandle Handle; internal Engine(Sys.Engine* value) {Handle=new EngineHandle(value);} public void Dispose() => Handle.Dispose();\n"
        + "public uint Version() {\n"
        + "using var lease_engine = new HandleLease(Handle);\n"
        + "uint value=default;\n"
        + "Sys.EsBuffer* error=null;\n"
        + "Native.Check(Sys.NativeMethods.ethersync_engine_version((Sys.Engine*)lease_engine.Pointer,&value,&error),error);\n"
        + "return value;\n"
        + "}\n"
        + "}\n";
    assert_eq!(csharp_source(&opaque, &Vec::new(), &functions), Ok(expected));
}

#[test]
fn csharp_source_pins_text_and_checks_handles() {
    let opaque = names(&["Leader", "Options"]);
    let functions = vec![sig(
        "leader_new",
        &[("options", "&Options"), ("session_name", "&str")],
        "Leader",
        true,
    )];
    let s = csharp_source(&opaque, &Vec::new(), &functions).unwrap();
    assert!(s.contains("public Leader(Options @options, string @sessionName) {\nArgumentNullException.ThrowIfNull(@options);\nusing var lease_options = new HandleLease(@options.Handle);\nArgumentNullException.ThrowIfNull(@sessionName);\nvar bytes_sessionName=Encoding.UTF8.GetBytes(@sessionName);\nSys.Leader* value=default;\nSys.EsBuffer* error=null;\nfixed(byte* ptr_sessionName=bytes_sessionName) {\nNative.Check(Sys.NativeMethods.ethersync_leader_new((Sys.Options*)lease_options.Pointer,ptr_sessionName,(nuint)bytes_sessionName.Length,&value,&error),error);\n}\nHandle=new LeaderHandle(value);\n}\n"));
}

#[test]
fn csharp_source_records_expose_reading_enums() {
    let records: Vec<Record> = vec![(
        "Reading".to_string(),
        vec![("connection".to_string(), "u8".to_string())],
    )];
    let s = csharp_source(&Vec::new(), &records, &Vec::new()).unwrap();
    let expected = String::from(CS_PRELUDE)
        + "public readonly struct Reading { private readonly Sys.Reading raw; internal Reading(Sys.Reading value) { raw=value; }\n"
        + "public ConnectionState Connection => (ConnectionState)raw.@connection;\n"
        + CS_TIMECODE
        + "}\n";
    assert_eq!(s, expected);
}

#[test]
fn csharp_source_refuses_a_function_without_owner() {
    let opaque = names(&["Engine"]);
    let functions = vec![sig("leader_start", &[], "()", false)];
    assert_eq!(
        csharp_source(&opaque, &Vec::new(), &functions),
        Err("API owner".to_string())
    );
}

#[test]
fn csharp_names_ok_checks_owned_arguments_fields_and_methods() {
    let opaque = names(&["Engine"]);
    let ok = vec![sig("engine_set_rate", &[("engine", "&Engine"), ("rate_hz", "u32")], "()", false)];
    assert!(csharp_names_ok(&opaque, &Vec::new(), &ok));
    let doubled = vec![sig("engine_set", &[("engine", "&Engine"), ("a__b", "u32")], "()", false)];
    assert!(!csharp_names_ok(&opaque, &Vec::new(), &doubled));
    let accented = vec![sig("engine_set", &[("engine", "&Engine"), ("élan", "u32")], "()", false)];
    assert!(!csharp_names_ok(&opaque, &Vec::new(), &accented));
    let unowned = vec![sig("leader_set", &[("a__b", "u32")], "()", false)];
    assert!(csharp_names_ok(&opaque, &Vec::new(), &unowned));
    let bad_method = vec![sig("engine__x", &[], "()", false)];
    assert!(!csharp_names_ok(&opaque, &Vec::new(), &bad_method));
    let records: Vec<Record> = vec![("Reading".to_string(), vec![("_hours".to_string(), "u8".to_string())])];
    assert!(!csharp_names_ok(&Vec::new(), &records, &Vec::new()));
}

#[test]
fn parts_nonempty_of_rejects_stray_underscores() {
    assert!(parts_nonempty_of("session_name"));
    assert!(!parts_nonempty_of(""));
    assert!(!parts_nonempty_of("_a"));
    assert!(!parts_nonempty_of("a_"));
    assert!(!parts_nonempty_of("a__b"));
}
