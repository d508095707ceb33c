use justkv::config::{
    BuildArgs, Cli, Command, DataArgs, HealthArgs, ParseArgs, ServeArgs, DEFAULT_BIND,
};
use justkv::path::DataPath;
use justkv::store::csv_loader::LoadOptions;

fn at(path: &str) -> DataPath {
    DataPath::new(path)
}

#[test]
fn load_options_infer_delimiter_from_extension() {
    let p = ParseArgs { delimiter: None, header: false, allow_binary: false };
    assert_eq!(p.load_options(&at("x.tsv")).delimiter, b'\t');
    assert_eq!(p.load_options(&at("x.csv")).delimiter, b',');
}

#[test]
fn explicit_delimiter_overrides_extension() {
    let p = ParseArgs { delimiter: Some(';'), header: true, allow_binary: true };
    let o = p.load_options(&at("x.tsv"));
    assert_eq!(o.delimiter, b';');
    assert!(o.has_header && o.allow_binary);
}

#[test]
fn of_a_delimiter_beyond_a_byte_the_low_byte_counts() {
    let p = ParseArgs { delimiter: Some('\u{12c}'), header: false, allow_binary: false };
    assert_eq!(p.load_options(&at("x.csv")).delimiter, b',');
}

#[test]
fn the_extension_is_that_of_the_file_name() {
    for (path, extension) in [
        ("x.tsv", Some("tsv")),
        ("a/b/x.tsv", Some("tsv")),
        ("/x.TsV", Some("TsV")),
        ("a.csv/x.tsv", Some("tsv")),
        ("x.tsv/", Some("tsv")),
        ("x.tsv/.", Some("tsv")),
        ("x.tsv//./", Some("tsv")),
        ("x.tsv.gz", Some("gz")),
        ("..tsv", Some("tsv")),
        ("...", Some("")),
        ("x.", Some("")),
        ("\u{e9}.tsv", Some("tsv")),
        ("", None),
        ("/", None),
        (".", None),
        ("./.", None),
        ("..", None),
        ("x.tsv/..", None),
        (".tsv", None),
        ("a/.tsv", None),
        ("tsv", None),
        ("x.tsv/y", None),
    ] {
        let p = at(path);
        assert_eq!(p.text, path);
        assert_eq!(p.extension.as_deref(), extension, "{path}");
    }
}

#[test]
fn a_tab_goes_with_the_extension_that_the_system_sees() {
    let with = |extension: Option<&str>| DataPath {
        text: "whatever".to_string(),
        extension: extension.map(str::to_string),
    };
    for extension in ["tsv", "TSV", "tSv"] {
        assert_eq!(LoadOptions::delimiter_for_path(&with(Some(extension))), b'\t');
    }
    for extension in [None, Some(""), Some("csv"), Some("ts"), Some("tsvx"), Some("t\u{17f}v")] {
        assert_eq!(LoadOptions::delimiter_for_path(&with(extension)), b',');
    }
}

#[test]
fn a_command_line_says_what_to_do() {
    let parse = ParseArgs { delimiter: None, header: false, allow_binary: false };
    let commands = [
        Command::Serve(ServeArgs {
            data: at("kv.csv"),
            bind: DEFAULT_BIND.to_string(),
            default_value: None,
            content_type: None,
            workers: Some(3),
            no_metrics: false,
            parse: parse.clone(),
        }),
        Command::Check(DataArgs { data: at("kv.csv"), parse: parse.clone() }),
        Command::Build(BuildArgs { data: at("kv.csv"), out: "kv.bin".to_string(), parse }),
        Command::Healthcheck(HealthArgs { bind: DEFAULT_BIND.to_string() }),
    ];
    for command in commands {
        let cli = Cli { command };
        match &cli.command {
            Command::Serve(a) => assert_eq!((a.data.text.as_str(), a.workers), ("kv.csv", Some(3))),
            Command::Check(a) => assert_eq!(a.data.text, "kv.csv"),
            Command::Build(a) => assert_eq!(a.out, "kv.bin"),
            Command::Healthcheck(a) => assert_eq!(a.bind, "0.0.0.0:8080"),
        }
    }
}
