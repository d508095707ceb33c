//! What the command line can say.

use crate::path::{DataPath, Located};
use crate::store::csv_loader::{inferred_delimiter, LoadOptions};
use vstd::prelude::*;

verus! {

/// Where the server listens unless it is told otherwise.
pub const DEFAULT_BIND: &'static str = "0.0.0.0:8080";

/// A command line.
#[derive(Debug)]
pub struct Cli {
    pub command: Command,
}

#[derive(Debug)]
pub enum Command {
    /// Load a dataset and serve it over HTTP
    Serve(ServeArgs),
    /// Validate a dataset and exit; reports every problem found
    Check(DataArgs),
    /// Compile a CSV/TSV dataset into the binary format
    Build(BuildArgs),
    /// Probe a running server's /health endpoint
    Healthcheck(HealthArgs),
}

/// Parsing flags shared by serve, check and build.
#[derive(Debug, Clone)]
pub struct ParseArgs {
    /// Field delimiter; defaults to tab for .tsv, comma otherwise
    pub delimiter: Option<char>,
    /// Skip the first row
    pub header: bool,
    /// Permit values that are not valid UTF-8
    pub allow_binary: bool,
}

#[derive(Debug)]
pub struct ServeArgs {
    /// Dataset to load: CSV/TSV, or a file produced by `justkv build`
    pub data: DataPath,
    /// Address to listen on
    pub bind: String,
    /// Returned with 200 instead of 404 when a key is absent
    pub default_value: Option<String>,
    /// Overrides the response Content-Type
    pub content_type: Option<String>,
    /// Tokio worker threads; defaults to core count
    pub workers: Option<usize>,
    /// Skip per-request latency timing
    pub no_metrics: bool,
    pub parse: ParseArgs,
}

#[derive(Debug)]
pub struct DataArgs {
    /// Dataset to validate
    pub data: DataPath,
    pub parse: ParseArgs,
}

#[derive(Debug)]
pub struct BuildArgs {
    /// Source CSV/TSV dataset
    pub data: DataPath,
    /// Destination for the compiled file
    pub out: String,
    pub parse: ParseArgs,
}

#[derive(Debug)]
pub struct HealthArgs {
    /// Address to probe; a 0.0.0.0 host is rewritten to 127.0.0.1
    pub bind: String,
}

/// How a dataset at `path` is read. A delimiter that is given wins over the one that the
/// path suggests; of one beyond a byte the low byte counts.
pub open spec fn options_for(parse: ParseArgs, path: Located) -> LoadOptions {
    LoadOptions {
        delimiter: match parse.delimiter {
            Some(c) => (c as u32 % 256) as u8,
            None => inferred_delimiter(path),
        },
        has_header: parse.header,
        allow_binary: parse.allow_binary,
    }
}

impl ParseArgs {
    /// How the dataset at `path` is to be read.
    pub fn load_options(&self, path: &DataPath) -> (opts: LoadOptions)
        ensures
            opts == options_for(*self, path@),
    {
        let delimiter: u8 = match self.delimiter {
            Some(c) => {
                let code: u32 = c as u32;
                (code % 256) as u8
            },
            None => LoadOptions::delimiter_for_path(path),
        };
        LoadOptions { delimiter, has_header: self.header, allow_binary: self.allow_binary }
    }
}

/// A delimiter that is given is the one the dataset is read with, whatever the path is
/// called: every character up to code 255 is its own byte, and of a character beyond that
/// the delimiter differs by a multiple of 256.
pub proof fn law_a_given_delimiter_is_the_one_used(parse: ParseArgs, path: Located, c: char)
    requires
        parse.delimiter == Some(c),
    ensures
        (c as u32) < 256 ==> options_for(parse, path).delimiter == c as u32,
        (c as u32 - options_for(parse, path).delimiter) % 256 == 0,
{
}

/// Different delimiters up to code 255 stay different.
pub proof fn law_different_delimiters_stay_different(
    a: ParseArgs,
    b: ParseArgs,
    path: Located,
    c: char,
    d: char,
)
    requires
        a.delimiter == Some(c),
        b.delimiter == Some(d),
        (c as u32) < 256,
        (d as u32) < 256,
        options_for(a, path).delimiter == options_for(b, path).delimiter,
    ensures
        c == d,
{
}

/// Without a delimiter, the extension decides and nothing else: `tsv` in any case means
/// tab, and any other extension, or none, means comma.
pub proof fn law_the_extension_decides_where_no_delimiter_is_given(
    parse: ParseArgs,
    path: Located,
)
    requires
        parse.delimiter is None,
    ensures
        options_for(parse, path).delimiter == 9 || options_for(parse, path).delimiter == 44,
        options_for(parse, path).delimiter == 9 <==> {
            &&& path.extension is Some
            &&& in_lower_case(path.extension->0) == seq!['t', 's', 'v']
        },
{
    if let Some(e) = path.extension {
        let low = in_lower_case(e);
        let tsv = seq!['t', 's', 'v'];
        if low == tsv {
            assert(low.len() == 3 && low[0] == 't' && low[1] == 's' && low[2] == 'v');
            assert(lower_case(e[0]) == 't' && lower_case(e[1]) == 's' && lower_case(e[2]) == 'v');
            assert(e[0] == 't' || e[0] == 'T');
            assert(e[1] == 's' || e[1] == 'S');
            assert(e[2] == 'v' || e[2] == 'V');
        }
        if options_for(parse, path).delimiter == 9 {
            assert(low =~= tsv);
        }
    }
}

/// A letter of ASCII in lower case; any other character as it is.
pub open spec fn lower_case(c: char) -> char {
    if 'A' <= c <= 'Z' {
        (c as u32 + 32) as char
    } else {
        c
    }
}

/// A text with its letters of ASCII in lower case.
pub open spec fn in_lower_case(text: Seq<char>) -> Seq<char> {
    Seq::new(text.len(), |i: int| lower_case(text[i]))
}

/// The two flags are handed on as they are.
pub proof fn law_flags_are_handed_on(parse: ParseArgs, path: Located)
    ensures
        options_for(parse, path).has_header == parse.header,
        options_for(parse, path).allow_binary == parse.allow_binary,
{
}

} // verus!
