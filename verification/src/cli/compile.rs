//! `build`, one step at a time.
//!
//! The image goes to a scratch file beside the destination, which is then renamed, so a
//! failed build never leaves a half-written artifact that a later stage would load.

use crate::cli::{
    check_says, failed, failed_text, failure, parse_validated, read_as_asked, reads_back_as_asked,
    refusal, success,
    Report, Said, EXIT_IO, EXIT_OK,
};
use crate::config::{options_for, BuildArgs, DataArgs};
use crate::server::{content_type_of, BINARY_CONTENT_TYPE, DEFAULT_CONTENT_TYPE};
use crate::store::compiled::{
    dataset_flags, decoded, flags_for, has_magic, image, is_readable,
    law_a_file_is_readable_or_refused_with_one_error, write_compiled,
};
use crate::store::csv_loader::{layout, lemma_layout_len, packed, LoadOptions};
use crate::store::laws::law_csv_and_compiled_paths_agree;
use crate::store::rows::csv_rows;
use crate::store::{loads_to, LoadFailure, Loaded};
use crate::text::{decimal, push_decimal, push_len};
use vstd::prelude::*;
use vstd::string::StringExecFns;

verus! {

/// What a scratch file's name has behind that of the destination.
pub open spec fn suffix_of(process: u32) -> Seq<char> {
    ".justkv-"@ + decimal(process as nat) + ".tmp"@
}

/// What a scratch file's name has behind that of the destination. The number of the
/// process keeps two builds apart.
pub fn scratch_suffix(process: u32) -> (s: String)
    ensures
        s@ == suffix_of(process),
{
    let mut s = String::new();
    s.append(".justkv-");
    push_decimal(&mut s, process as u64);
    s.append(".tmp");
    assert(s@ =~= suffix_of(process));
    s
}

/// A build whose data is clean, on its way to the disk.
pub struct Plan {
    pub image: Vec<u8>,
    pub scratch: String,
    pub out: String,
    pub keys: usize,
    pub arena_bytes: usize,
}

/// What has become of the scratch file.
pub enum Written {
    /// The image is in it.
    Whole,
    /// It could not be created, so there is nothing to remove.
    NotCreated(String),
    /// It was created, but the image could not be written to it.
    Partly(String),
}

/// What to do next.
pub enum Step {
    /// Create the scratch file, in the place of one that a build of the same number left
    /// behind, and write the image to it.
    Write,
    /// Rename the scratch file to the destination.
    Rename,
    /// Remove the scratch file and end.
    Discard(Report),
    /// End.
    Finish(Report),
}

/// What a [`Step`] asks for.
pub enum Asked {
    Write,
    Rename,
    Discard(Said),
    Finish(Said),
}

impl View for Step {
    type V = Asked;

    open spec fn view(&self) -> Asked {
        match *self {
            Step::Write => Asked::Write,
            Step::Rename => Asked::Rename,
            Step::Discard(report) => Asked::Discard(report@),
            Step::Finish(report) => Asked::Finish(report@),
        }
    }
}

/// The image that `build` writes for the bytes of a clean dataset.
pub open spec fn image_of(args: BuildArgs, data: Seq<u8>) -> Seq<u8> {
    let pairs = read_as_asked(data, args.parse, args.data@).pairs;
    image(packed(pairs), layout(pairs), flags_for(args.parse.allow_binary))
}

/// `build`: validate a dataset and plan what to write. `data` is what reading the file
/// gave, and `process` the number of this process.
pub fn cmd_build(args: &BuildArgs, data: Result<Vec<u8>, String>, process: u32) -> (r: Result<
    Plan,
    Report,
>)
    ensures
        match r {
            Ok(plan) => {
                let pairs = read_as_asked(data->Ok_0@, args.parse, args.data@).pairs;
                &&& refusal(args.data@, data, args.parse) is None
                &&& plan.image@ == image_of(*args, data->Ok_0@)
                &&& plan.scratch@ == args.out@ + suffix_of(process)
                &&& plan.out@ == args.out@
                &&& plan.keys == pairs.len()
                &&& plan.arena_bytes == packed(pairs).len()
            },
            Err(report) => refusal(args.data@, data, args.parse) == Some(report@),
        },
        reads_back_as_asked(data, args.parse, args.data@),
{
    let ghost read = read_as_asked(data->Ok_0@, args.parse, args.data@);
    let (arena, entries) = match parse_validated(&args.data, data, &args.parse) {
        Ok(parts) => parts,
        Err(report) => {
            return Err(report);
        },
    };
    let flags: u32 = dataset_flags(args.parse.allow_binary);
    let mut image: Vec<u8> = Vec::new();
    write_compiled(&mut image, arena.as_slice(), entries.as_slice(), flags);
    proof {
        lemma_layout_len(read.pairs);
        assert(image@ =~= image_of(*args, data->Ok_0@));
    }
    let mut scratch = String::new();
    scratch.append(args.out.as_str());
    scratch.append(scratch_suffix(process).as_str());
    assert(scratch@ =~= args.out@ + suffix_of(process));
    Ok(
        Plan {
            image,
            scratch,
            out: args.out.as_str().to_owned(),
            keys: entries.len(),
            arena_bytes: arena.len(),
        },
    )
}

/// The line for a finished build.
pub open spec fn built_text(plan: Plan) -> Seq<char> {
    "built "@ + plan.out@ + " ("@ + decimal(plan.keys as nat) + " keys, "@ + decimal(
        plan.arena_bytes as nat,
    ) + " bytes of data)\n"@
}

/// What follows the attempt to write the scratch file.
pub open spec fn asked_after_writing(plan: Plan, written: Written) -> Asked {
    match written {
        Written::Whole => Asked::Rename,
        Written::NotCreated(message) => Asked::Finish(
            failure(EXIT_IO, failed_text("write"@, plan.scratch@, message@)),
        ),
        Written::Partly(message) => Asked::Discard(
            failure(EXIT_IO, failed_text("write"@, plan.scratch@, message@)),
        ),
    }
}

/// What follows the attempt to rename the scratch file.
pub open spec fn asked_after_renaming(plan: Plan, renamed: Result<(), String>) -> Asked {
    match renamed {
        Ok(_) => Asked::Finish(success(built_text(plan))),
        Err(message) => Asked::Discard(
            failure(EXIT_IO, failed_text("finalize"@, plan.out@, message@)),
        ),
    }
}

impl Plan {
    /// The first thing to do.
    pub fn start(&self) -> (step: Step)
        ensures
            step@ == Asked::Write,
    {
        Step::Write
    }

    /// What to do after writing the scratch file.
    pub fn after_writing(&self, written: Written) -> (step: Step)
        ensures
            step@ == asked_after_writing(*self, written),
    {
        match written {
            Written::Whole => Step::Rename,
            Written::NotCreated(message) => Step::Finish(
                failed("write", self.scratch.as_str(), message.as_str()),
            ),
            Written::Partly(message) => Step::Discard(
                failed("write", self.scratch.as_str(), message.as_str()),
            ),
        }
    }

    /// What to do after renaming the scratch file.
    pub fn after_renaming(&self, renamed: Result<(), String>) -> (step: Step)
        ensures
            step@ == asked_after_renaming(*self, renamed),
    {
        match renamed {
            Ok(_) => {
                let mut out = String::new();
                out.append("built ");
                out.append(self.out.as_str());
                out.append(" (");
                push_len(&mut out, self.keys);
                out.append(" keys, ");
                push_len(&mut out, self.arena_bytes);
                out.append(" bytes of data)\n");
                assert(out@ =~= built_text(*self));
                Step::Finish(Report { code: EXIT_OK, out, err: String::new() })
            },
            Err(message) => Step::Discard(
                failed("finalize", self.out.as_str(), message.as_str()),
            ),
        }
    }
}

/// A build writes something exactly where `check` finds the dataset clean.
pub proof fn law_build_accepts_what_check_accepts(
    args: BuildArgs,
    check: DataArgs,
    data: Result<Vec<u8>, String>,
)
    requires
        check.data@ == args.data@,
        check.parse == args.parse,
    ensures
        refusal(args.data@, data, args.parse) is None <==> check_says(check, data).code == EXIT_OK,
        refusal(args.data@, data, args.parse) matches Some(said) ==> said == check_says(
            check,
            data,
        ),
{
}

/// What `build` writes is a compiled dataset that reads back as the pairs of the source,
/// with the flag that `--allow-binary` stands for.
pub proof fn law_a_built_image_loads_as_its_source(args: BuildArgs, data: Seq<u8>)
    ensures
        ({
            let pairs = read_as_asked(data, args.parse, args.data@).pairs;
            let built = image_of(args, data);
            &&& has_magic(built)
            &&& is_readable(built)
            &&& decoded(built) == (
                packed(pairs),
                layout(pairs),
                flags_for(args.parse.allow_binary),
            )
        }),
{
    let opts = options_for(args.parse, args.data@);
    law_csv_and_compiled_paths_agree(
        csv_rows(data, opts.delimiter, opts.has_header),
        opts.allow_binary,
        flags_for(args.parse.allow_binary),
    );
}

/// A server cannot tell a compiled file from the CSV file it was built from: the image
/// loads under any options, to the same bytes, the same entries and the same flags.
pub proof fn law_serving_a_built_file_is_serving_its_source(
    args: BuildArgs,
    data: Seq<u8>,
    source: Loaded,
    opts: LoadOptions,
    built: Result<Loaded, LoadFailure>,
)
    requires
        !has_magic(data),
        loads_to(data, options_for(args.parse, args.data@), Ok(source)),
        loads_to(image_of(args, data), opts, built),
    ensures
        built matches Ok(l) && l.store.bytes() == source.store.bytes() && l.store.entries()
            == source.store.entries() && l.flags == source.flags,
{
    law_a_built_image_loads_as_its_source(args, data);
    if let Err(LoadFailure::Compiled(e)) = built {
        law_a_file_is_readable_or_refused_with_one_error(image_of(args, data), e, e);
    }
}

/// A dataset stays correctly typed without the flag being given again: what was built
/// with `--allow-binary` is served as binary, anything else as text, and either as what
/// the operator says.
pub proof fn law_a_built_dataset_keeps_its_content_type(
    args: BuildArgs,
    data: Seq<u8>,
    given: Seq<char>,
)
    ensures
        content_type_of(None, decoded(image_of(args, data)).2) == (if args.parse.allow_binary {
            BINARY_CONTENT_TYPE@
        } else {
            DEFAULT_CONTENT_TYPE@
        }),
        content_type_of(Some(given), decoded(image_of(args, data)).2) == given,
{
    law_a_built_image_loads_as_its_source(args, data);
    assert(1u32 & 1u32 != 0) by (bit_vector);
    assert(0u32 & 1u32 == 0) by (bit_vector);
}

/// The scratch file lies beside the destination and is neither the destination itself
/// nor, like `kv.tmp` for `kv.bin`, the destination under the extension `tmp`.
pub proof fn law_the_scratch_file_is_nobody_elses(out: Seq<char>, process: u32, stem: Seq<char>)
    requires
        stem.is_prefix_of(out),
    ensures
        out.is_prefix_of(out + suffix_of(process)),
        out + suffix_of(process) != out,
        out + suffix_of(process) != stem + ".tmp"@,
{
    reveal_strlit(".justkv-");
    reveal_strlit(".tmp");
    let scratch = out + suffix_of(process);
    assert(suffix_of(process).len() > 4);
    assert(scratch.len() > out.len() + 4);
    assert((stem + ".tmp"@).len() <= out.len() + 4);
    assert(scratch.take(out.len() as int) =~= out);
}

/// A scratch file that was created does not outlive the build: whatever happens, it is
/// renamed to the destination or removed. A build fails only with an I/O error then, and
/// succeeds only once the destination is in place.
pub proof fn law_a_build_ends_renamed_or_discarded(
    plan: Plan,
    written: Written,
    renamed: Result<(), String>,
)
    ensures
        written is Whole <==> asked_after_writing(plan, written) is Rename,
        written is Partly <==> asked_after_writing(plan, written) is Discard,
        asked_after_writing(plan, written) matches Asked::Discard(said) ==> said.code == EXIT_IO,
        asked_after_writing(plan, written) matches Asked::Finish(said) ==> said.code == EXIT_IO,
        renamed is Ok <==> asked_after_renaming(plan, renamed) is Finish,
        renamed is Err <==> asked_after_renaming(plan, renamed) is Discard,
        asked_after_renaming(plan, renamed) matches Asked::Finish(said) ==> said.code == EXIT_OK,
        asked_after_renaming(plan, renamed) matches Asked::Discard(said) ==> said.code == EXIT_IO,
{
}

} // verus!
