use justkv::cli::compile::{cmd_build, scratch_suffix, Plan, Step, Written};
use justkv::cli::health::{cmd_healthcheck, probe_address, probe_request, says_ok};
use justkv::cli::{
    cmd_check, failed, listening_line, parse_validated, report_load_failure, Report,
};
use justkv::config::{BuildArgs, DataArgs, ParseArgs};
use justkv::path::DataPath;
use justkv::server::AppState;
use justkv::store::compiled::{is_compiled, read_compiled, CompiledError, FLAG_BINARY};
use justkv::store::csv_loader::LoadOptions;
use justkv::store::{load, LoadFailure, SourceFormat};

fn plain() -> ParseArgs {
    ParseArgs { delimiter: None, header: false, allow_binary: false }
}

fn check(path: &str, data: Result<&[u8], &str>) -> Report {
    let args = DataArgs { data: DataPath::new(path), parse: plain() };
    cmd_check(&args, data.map(|d| d.to_vec()).map_err(|e| e.to_string()))
}

fn build(path: &str, out: &str, data: &[u8], parse: ParseArgs) -> Result<Plan, Report> {
    let args = BuildArgs { data: DataPath::new(path), out: out.to_string(), parse };
    cmd_build(&args, Ok(data.to_vec()), 42)
}

#[test]
fn check_exits_zero_on_clean_data() {
    let r = check("clean.csv", Ok(b"a,1\nb,2\n"));
    assert_eq!(r.code, 0, "{}", r.err);
    assert_eq!(r.out, "ok: 2 keys, 4 bytes of data in clean.csv\n");
    assert_eq!(r.err, "");
}

#[test]
fn check_exits_one_and_lists_every_problem() {
    let r = check("dirty.csv", Ok(b"a,1\nb\nc,2,3\na,9\n"));
    assert_eq!(r.code, 1);
    let err = r.err;
    assert!(err.contains("line 2"), "{err}");
    assert!(err.contains("line 3"), "{err}");
    assert!(err.contains("line 4"), "{err}");
    assert!(err.contains("duplicate key"), "{err}");
    assert_eq!(
        err,
        "dirty.csv: line 2: expected 2 columns, found 1\n\
         dirty.csv: line 3: expected 2 columns, found 3\n\
         dirty.csv: line 4: duplicate key \"a\", first seen on line 1\n\
         3 problem(s) found in dirty.csv\n"
    );
    assert_eq!(r.out, "");
}

#[test]
fn check_exits_two_on_missing_file() {
    let r = check("/nonexistent/justkv/nope.csv", Err("No such file or directory"));
    assert_eq!(r.code, 2);
    assert_eq!(
        r.err,
        "error: cannot read /nonexistent/justkv/nope.csv: No such file or directory\n"
    );
}

#[test]
fn build_produces_a_loadable_compiled_file() {
    let plan = build("src.csv", "out.bin", b"a,1\nb,2\n", plain()).ok().unwrap();
    assert!(is_compiled(&plan.image));
    assert_eq!((plan.out.as_str(), plan.keys, plan.arena_bytes), ("out.bin", 2, 4));
    let loaded = load(Ok(plan.image), "out.bin", &LoadOptions::default()).ok().unwrap();
    assert_eq!(loaded.format, SourceFormat::Compiled);
    assert_eq!(loaded.store.get(b"a").as_deref(), Some(&b"1"[..]));
}

#[test]
fn build_refuses_invalid_data() {
    let r = build("bad.csv", "bad.bin", b"a,1\na,2\n", plain()).err().unwrap();
    assert_eq!(r.code, 1);
    let c = check("bad.csv", Ok(b"a,1\na,2\n"));
    assert_eq!((r.code, r.out, r.err), (c.code, c.out, c.err));
}

#[test]
fn build_preserves_allow_binary_as_a_flag_in_the_file() {
    let parse = ParseArgs { allow_binary: true, ..plain() };
    let plan = build("bin.csv", "bin.bin", b"k,\xff\xfe\n", parse).ok().unwrap();
    let (_, _, flags) = read_compiled(&plan.image).unwrap();
    assert_eq!(flags & FLAG_BINARY, FLAG_BINARY);

    let plan = build("bin.csv", "bin.bin", b"k,v\n", plain()).ok().unwrap();
    let (_, _, flags) = read_compiled(&plan.image).unwrap();
    assert_eq!(flags & FLAG_BINARY, 0);
}

#[test]
fn a_built_file_is_served_like_its_source() {
    for allow_binary in [false, true] {
        let parse = ParseArgs { allow_binary, ..plain() };
        let opts = parse.load_options(&DataPath::new("kv.csv"));
        let csv = b"a,1\n\"b,c\",\n";
        let plan = build("kv.csv", "kv.bin", csv, parse).ok().unwrap();
        let source = load(Ok(csv.to_vec()), "kv.csv", &opts).ok().unwrap();
        // The options that the source was read with are not needed again.
        let built = load(Ok(plan.image), "kv.bin", &LoadOptions::default()).ok().unwrap();
        assert_eq!(built.flags, source.flags);
        assert_eq!(built.store.arena(), source.store.arena());
        assert_eq!(built.store.len(), source.store.len());
        for key in [&b"a"[..], b"b,c", b"zzz"] {
            assert_eq!(built.store.get(key), source.store.get(key));
        }
        let expected = if allow_binary { "application/octet-stream" } else { "text/plain; charset=utf-8" };
        assert_eq!(AppState::for_dataset(built, None, None, true).content_type, expected);
        let given = Some("text/csv".to_string());
        assert_eq!(AppState::for_dataset(source, None, given, true).content_type, "text/csv");
    }
}

#[test]
fn the_scratch_file_is_named_after_the_whole_destination() {
    assert_eq!(scratch_suffix(42), ".justkv-42.tmp");
    let plan = build("src.csv", "dir/kv.bin", b"a,1\nb,2\n", plain()).ok().unwrap();
    assert_eq!(plan.scratch, "dir/kv.bin.justkv-42.tmp");
    assert!(plan.scratch != "dir/kv.tmp");
    let plan = build("src.csv", "kv", b"a,1\n", plain()).ok().unwrap();
    assert!(plan.scratch != "kv" && plan.scratch != "kv.tmp");
}

#[test]
fn a_build_writes_then_renames_then_reports() {
    let plan = build("src.csv", "kv.bin", b"a,1\nb,2\n", plain()).ok().unwrap();
    assert!(matches!(plan.start(), Step::Write));
    assert!(matches!(plan.after_writing(Written::Whole), Step::Rename));
    match plan.after_renaming(Ok(())) {
        Step::Finish(r) => {
            assert_eq!(r.code, 0);
            assert_eq!(r.out, "built kv.bin (2 keys, 4 bytes of data)\n");
            assert_eq!(r.err, "");
        }
        _ => panic!("expected the end"),
    }
}

#[test]
fn a_failed_build_discards_its_own_scratch_file_and_no_other() {
    let plan = build("src.csv", "kv.bin", b"a,1\n", plain()).ok().unwrap();
    match plan.after_writing(Written::Partly("disk full".to_string())) {
        Step::Discard(r) => {
            assert_eq!(r.code, 2);
            assert_eq!(r.err, "error: cannot write kv.bin.justkv-42.tmp: disk full\n");
        }
        _ => panic!("expected the scratch file to be discarded"),
    }
    match plan.after_writing(Written::NotCreated("exists".to_string())) {
        Step::Finish(r) => assert_eq!(r.code, 2),
        _ => panic!("expected the end"),
    }
    match plan.after_renaming(Err("is a directory".to_string())) {
        Step::Discard(r) => {
            assert_eq!(r.code, 2);
            assert_eq!(r.err, "error: cannot finalize kv.bin: is a directory\n");
        }
        _ => panic!("expected the scratch file to be discarded"),
    }
}

#[test]
fn a_path_that_ends_in_tsv_is_read_with_tabs() {
    let r = check("dir/KV.TSV", Ok(b"a\t1,2\n"));
    assert_eq!((r.code, r.out.as_str()), (0, "ok: 1 keys, 4 bytes of data in dir/KV.TSV\n"));
    assert_eq!(check("dir.tsv/kv", Ok(b"a\t1,2\n")).code, 0);
    assert_eq!(check("dir/.tsv", Ok(b"a\t1\n")).code, 1);
}

#[test]
fn validation_hands_over_what_it_parsed() {
    let parse = ParseArgs { delimiter: Some(';'), header: true, allow_binary: false };
    let data = Ok(b"key;value\na;1\n".to_vec());
    let (arena, entries) = parse_validated(&DataPath::new("kv.tsv"), data, &parse).ok().unwrap();
    assert_eq!(arena, b"a1");
    assert_eq!(entries.len(), 1);
}

#[test]
fn healthcheck_fails_when_nothing_is_listening() {
    let addr = probe_address("127.0.0.1:1");
    assert_eq!(addr, "127.0.0.1:1");
    let r = cmd_healthcheck(&addr, Err("Connection refused".to_string()));
    assert_eq!(r.code, 1);
    assert_eq!(r.err, "error: cannot reach 127.0.0.1:1: Connection refused\n");
}

#[test]
fn healthcheck_exits_zero_on_200_and_one_otherwise() {
    let ok = cmd_healthcheck("x:1", Ok(b"HTTP/1.1 200 OK\r\ncontent-length: 2\r\n\r\nok".to_vec()));
    assert_eq!((ok.code, ok.out.as_str(), ok.err.as_str()), (0, "", ""));
    let bad = cmd_healthcheck("x:1", Ok(b"HTTP/1.1 503 Service Unavailable\r\n\r\n".to_vec()));
    assert_eq!((bad.code, bad.err.as_str()), (1, "error: x:1 is not healthy\n"));
    for reply in ["HTTP/1.0 200 OK\r\n", "HTTP/1.1 200\r\n", "HTTP/1.1 200"] {
        assert!(says_ok(reply.as_bytes()), "{reply}");
    }
    for reply in ["", "HTTP/1.1 20", "HTTP/1.1 2000 OK", "HTTP/2.0 200 OK", "200 OK and more", "HTTP/1.1 404 Not Found"] {
        assert!(!says_ok(reply.as_bytes()), "{reply}");
    }
}

#[test]
fn a_probe_asks_the_loopback_address_for_every_interface() {
    assert_eq!(probe_address("0.0.0.0:8080"), "127.0.0.1:8080");
    assert_eq!(probe_address("0.0.0.0"), "127.0.0.1");
    assert_eq!(probe_address("10.0.0.0:80"), "10.0.0.0:80");
    assert_eq!(probe_address("0.0.0.01:80"), "0.0.0.01:80");
    assert_eq!(probe_address("0.0"), "0.0");
    assert_eq!(probe_address(""), "");
    assert_eq!(
        probe_request("127.0.0.1:8080"),
        "GET /health HTTP/1.1\r\nHost: 127.0.0.1:8080\r\nConnection: close\r\n\r\n"
    );
}

#[test]
fn each_load_failure_has_its_exit_code() {
    let io = report_load_failure("kv.bin", &LoadFailure::Io("gone".to_string()));
    assert_eq!((io.code, io.err.as_str()), (2, "error: cannot load kv.bin: gone\n"));
    let compiled = report_load_failure("kv.bin", &LoadFailure::Compiled(CompiledError::BadMagic));
    assert_eq!(compiled.code, 1);
    let data = load(Ok(b"a\n".to_vec()), "kv.csv", &LoadOptions::default()).err().unwrap();
    let data = report_load_failure("kv.csv", &data);
    assert_eq!(data.code, 1);
    assert_eq!(
        data.err,
        "error: cannot load kv.csv: line 1: expected 2 columns, found 1\n1 problem(s) found\n"
    );
}

#[test]
fn messages_name_the_operation_and_the_path() {
    let r = failed("read", "a b", "why");
    assert_eq!((r.code, r.out.as_str(), r.err.as_str()), (2, "", "error: cannot read a b: why\n"));
    assert_eq!(
        listening_line("127.0.0.1:80", 12, 345),
        "justkv listening on 127.0.0.1:80 (12 keys, 345 bytes)\n"
    );
}
