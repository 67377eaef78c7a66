//! Building and inspecting docker images.

use vstd::prelude::*;
use vstd::string::*;
use vstd::utf8::*;

use crate::paths::{copy_paths, UnixPath};
use crate::shell::{CmdOutput, ShellCommand, ShellCommandView};
use crate::text::{
    copy_bytes, parse_unsigned, string_from_utf8, string_from_utf8_lossy, trim, IntError,
};

verus! {

/// A docker image, and what is taken from it.
#[derive(Debug)]
pub struct DockerSource {
    /// The name of the docker image used for creating the root file system.
    pub tag: String,
    /// The directory containing the docker context used to build `image`.
    pub build_path: UnixPath,
    /// Paths to copy from the container to the file system.
    pub copy: Vec<UnixPath>,
    /// Empty folders to create in the file system.
    pub create_dirs: Vec<UnixPath>,
}

impl Clone for DockerSource {
    fn clone(&self) -> (copy: Self)
        ensures
            copy.tag == self.tag,
            copy.build_path@ == self.build_path@,
            crate::paths::paths_view(copy.copy@) == crate::paths::paths_view(self.copy@),
            crate::paths::paths_view(copy.create_dirs@) == crate::paths::paths_view(
                self.create_dirs@,
            ),
    {
        DockerSource {
            tag: self.tag.clone(),
            build_path: self.build_path.clone(),
            copy: copy_paths(&self.copy),
            create_dirs: copy_paths(&self.create_dirs),
        }
    }
}

/// The command that builds the image.
pub open spec fn build_image_spec(tag: Seq<char>, root: Seq<u8>, no_cache: bool) -> ShellCommandView {
    ShellCommandView {
        program: "docker"@,
        args: seq![encode_utf8("build"@), encode_utf8("-t"@), encode_utf8(tag), root]
            + if no_cache {
            seq![encode_utf8("--no-cache"@)]
        } else {
            Seq::empty()
        },
    }
}

/// The command that builds the image of `config`, without the cache where `no_cache` is set.
pub fn build_image(config: &DockerSource, no_cache: bool) -> (command: ShellCommand)
    ensures
        command@ == build_image_spec(config.tag@, config.build_path@, no_cache),
{
    let command = ShellCommand::new("docker").arg("build").arg("-t").arg(config.tag.as_str());
    let command = command.arg_bytes(copy_bytes(&config.build_path.bytes));
    let command = if no_cache {
        command.arg("--no-cache")
    } else {
        command
    };
    assert(command@ =~= build_image_spec(config.tag@, config.build_path@, no_cache));
    command
}

/// The command that shows the image `tag` in the form that `format` asks for.
pub open spec fn inspect_spec(tag: Seq<char>, format: Seq<char>) -> ShellCommandView {
    ShellCommandView {
        program: "docker"@,
        args: seq![
            encode_utf8("image"@),
            encode_utf8("inspect"@),
            encode_utf8(tag),
            encode_utf8(format),
        ],
    }
}

fn inspect(config: &DockerSource, format: &str) -> (command: ShellCommand)
    ensures
        command@ == inspect_spec(config.tag@, format@),
{
    let command = ShellCommand::new("docker").arg("image").arg("inspect");
    let command = command.arg(config.tag.as_str()).arg(format);
    assert(command@ =~= inspect_spec(config.tag@, format@));
    command
}

/// The command that shows the size of the image of `config`.
pub fn image_size_command(config: &DockerSource) -> (command: ShellCommand)
    ensures
        command@ == inspect_spec(config.tag@, "--format={{.Size}}"@),
{
    inspect(config, "--format={{.Size}}")
}

/// The command that shows when the image of `config` was created.
pub fn creation_time_command(config: &DockerSource) -> (command: ShellCommand)
    ensures
        command@ == inspect_spec(config.tag@, "--format={{.Created}}"@),
{
    inspect(config, "--format={{.Created}}")
}

/// Why something cannot be told of an image.
#[derive(Debug)]
pub enum InspectError {
    /// The command failed; what it wrote to standard error.
    Failed(String),
    /// What the command wrote is not UTF-8.
    NonUtf8(std::string::FromUtf8Error),
    /// What the command wrote is no number.
    Size(IntError),
    /// What the command wrote is no date.
    Date(time::error::Parse),
}

/// An [`InspectError`] over its characters.
pub enum InspectErrorView {
    Failed(Seq<char>),
    NonUtf8,
    Size(IntError),
    Date,
}

impl View for InspectError {
    type V = InspectErrorView;

    open spec fn view(&self) -> InspectErrorView {
        match self {
            InspectError::Failed(stderr) => InspectErrorView::Failed(stderr@),
            InspectError::NonUtf8(_) => InspectErrorView::NonUtf8,
            InspectError::Size(cause) => InspectErrorView::Size(*cause),
            InspectError::Date(_) => InspectErrorView::Date,
        }
    }
}

/// What is said where `field` of an image cannot be told.
pub open spec fn inspect_text(error: InspectErrorView, field: Seq<char>) -> Seq<char> {
    match error {
        InspectErrorView::Failed(stderr) => "error inspecting "@ + field + " of docker image: "@
            + stderr,
        _ => "error parsing image "@ + field,
    }
}

impl InspectError {
    fn text(&self, field: &str) -> (text: String)
        ensures
            text@ == inspect_text(self@, field@),
    {
        match self {
            InspectError::Failed(stderr) => {
                let mut text = "error inspecting ".to_string();
                text.append(field);
                text.append(" of docker image: ");
                text.append(stderr.as_str());
                text
            },
            _ => {
                let mut text = "error parsing image ".to_string();
                text.append(field);
                text
            },
        }
    }

    /// What is said where the size of an image cannot be told.
    pub fn size_message(&self) -> (text: String)
        ensures
            text@ == inspect_text(self@, "size"@),
    {
        self.text("size")
    }

    /// What is said where it cannot be told when an image was created.
    pub fn date_message(&self) -> (text: String)
        ensures
            text@ == inspect_text(self@, "creation date"@),
    {
        self.text("creation date")
    }
}

/// What an inspection shows, without the white space around it.
pub open spec fn shown(success: bool, stdout: Seq<u8>, stderr: Seq<u8>) -> Result<
    Seq<char>,
    InspectErrorView,
> {
    if !success {
        Err(InspectErrorView::Failed(crate::text::utf8_lossy(stderr)))
    } else if !valid_utf8(stdout) {
        Err(InspectErrorView::NonUtf8)
    } else {
        Ok(crate::text::trimmed(decode_utf8(stdout)))
    }
}

/// The size of an image, as the inspection shows it.
pub open spec fn shown_size(success: bool, stdout: Seq<u8>, stderr: Seq<u8>) -> Result<
    u64,
    InspectErrorView,
> {
    match shown(success, stdout, stderr) {
        Err(e) => Err(e),
        Ok(text) => match crate::text::unsigned_value(text, u64::MAX as nat) {
            Ok(n) => Ok(n as u64),
            Err(cause) => Err(InspectErrorView::Size(cause)),
        },
    }
}

/// The text of an inspection.
fn inspected(output: CmdOutput) -> (text: Result<String, InspectError>)
    ensures
        match text {
            Ok(t) => shown(output.success, output.stdout@, output.stderr@) == Ok::<
                Seq<char>,
                InspectErrorView,
            >(t@),
            Err(e) => shown(output.success, output.stdout@, output.stderr@) == Err::<
                Seq<char>,
                InspectErrorView,
            >(e@),
        },
{
    if !output.success {
        return Err(InspectError::Failed(string_from_utf8_lossy(output.stderr.as_slice())));
    }
    match string_from_utf8(output.stdout) {
        Err(e) => Err(InspectError::NonUtf8(e)),
        Ok(text) => Ok(trim(text.as_str()).to_string()),
    }
}

/// The size of an image, from the output of [`image_size_command`].
pub fn get_image_size(output: CmdOutput) -> (size: Result<u64, InspectError>)
    ensures
        match size {
            Ok(n) => shown_size(output.success, output.stdout@, output.stderr@) == Ok::<
                u64,
                InspectErrorView,
            >(n),
            Err(e) => shown_size(output.success, output.stdout@, output.stderr@) == Err::<
                u64,
                InspectErrorView,
            >(e@),
        },
{
    match inspected(output) {
        Err(e) => Err(e),
        Ok(text) => match parse_unsigned(text.as_str(), u64::MAX) {
            Ok(n) => Ok(n),
            Err(cause) => Err(InspectError::Size(cause)),
        },
    }
}

/// Declares the error of the date parser.
#[verifier::external_type_specification]
#[verifier::external_body]
pub struct ExParseError(time::error::Parse);

/// The moment that a date of RFC 3339 names, in nanoseconds since the Unix epoch.
pub uninterp spec fn rfc3339_nanos(text: Seq<char>) -> Option<i128>;

/// Calls `time::OffsetDateTime::parse` with the format `Rfc3339`, and takes the moment as
/// `OffsetDateTime::unix_timestamp_nanos` gives it.
///
/// Names the result. Which texts are dates, and which moment each names, is left unsaid.
#[verifier::external_body]
fn parse_rfc3339(text: &str) -> (moment: Result<i128, time::error::Parse>)
    ensures
        match moment {
            Ok(nanos) => rfc3339_nanos(text@) == Some(nanos),
            Err(_) => rfc3339_nanos(text@) is None,
        },
{
    let format = &time::format_description::well_known::Rfc3339;
    time::OffsetDateTime::parse(text, format).map(|date| date.unix_timestamp_nanos())
}

/// When an image was created, where an inspection shows `text` and `date` is the moment that it
/// names.
pub open spec fn shown_time(
    text: Result<Seq<char>, InspectErrorView>,
    date: Option<i128>,
) -> Result<i128, InspectErrorView> {
    match text {
        Err(e) => Err(e),
        Ok(_) => match date {
            Some(nanos) => Ok(nanos),
            None => Err(InspectErrorView::Date),
        },
    }
}

/// When an image was created, where an inspection succeeded and `date` is what the date parser made
/// of its text.
pub fn creation_time_of(date: Result<i128, time::error::Parse>) -> (moment: Result<
    i128,
    InspectError,
>)
    ensures
        match date {
            Ok(nanos) => moment == Ok::<i128, InspectError>(nanos),
            Err(e) => moment == Err::<i128, InspectError>(InspectError::Date(e)),
        },
{
    match date {
        Ok(nanos) => Ok(nanos),
        Err(e) => Err(InspectError::Date(e)),
    }
}

/// When an image was created, from the output of [`creation_time_command`], in nanoseconds since
/// the Unix epoch.
pub fn get_creation_time(output: CmdOutput) -> (moment: Result<i128, InspectError>)
    ensures
        ({
            let text = shown(output.success, output.stdout@, output.stderr@);
            match moment {
                Ok(nanos) => shown_time(text, rfc3339_nanos(text->Ok_0)) == Ok::<
                    i128,
                    InspectErrorView,
                >(nanos),
                Err(e) => shown_time(text, rfc3339_nanos(text->Ok_0)) == Err::<
                    i128,
                    InspectErrorView,
                >(e@),
            }
        }),
{
    match inspected(output) {
        Err(e) => Err(e),
        Ok(text) => creation_time_of(parse_rfc3339(text.as_str())),
    }
}

// ---------------------------------------------------------------------------------------------
// Laws
// ---------------------------------------------------------------------------------------------

/// An image is built under its tag from its directory. Without the cache, one argument more comes
/// last, and nothing else changes.
pub proof fn lemma_build_command(tag: Seq<char>, root: Seq<u8>)
    ensures
        build_image_spec(tag, root, false).program == "docker"@,
        build_image_spec(tag, root, false).args == seq![
            encode_utf8("build"@),
            encode_utf8("-t"@),
            encode_utf8(tag),
            root,
        ],
        build_image_spec(tag, root, true).program == build_image_spec(tag, root, false).program,
        build_image_spec(tag, root, true).args == build_image_spec(tag, root, false).args.push(
            encode_utf8("--no-cache"@),
        ),
{
    assert(build_image_spec(tag, root, false).args =~= seq![
        encode_utf8("build"@),
        encode_utf8("-t"@),
        encode_utf8(tag),
        root,
    ]);
    assert(build_image_spec(tag, root, true).args =~= build_image_spec(tag, root, false).args.push(
        encode_utf8("--no-cache"@),
    ));
}

/// An image is inspected by its tag, and the form that is asked for comes last.
pub proof fn lemma_inspect_command(tag: Seq<char>, format: Seq<char>)
    ensures
        inspect_spec(tag, format).program == "docker"@,
        inspect_spec(tag, format).args == seq![
            encode_utf8("image"@),
            encode_utf8("inspect"@),
            encode_utf8(tag),
            encode_utf8(format),
        ],
{
}

/// The size of an image reads back: whatever number docker writes, with whatever white space around
/// it and whatever beside it on standard error, is the size.
pub proof fn lemma_size_reads_back(left: Seq<char>, n: u64, right: Seq<char>, stderr: Seq<u8>)
    requires
        forall|i: int| 0 <= i < left.len() ==> crate::text::is_white_space(#[trigger] left[i]),
        forall|i: int| 0 <= i < right.len() ==> crate::text::is_white_space(#[trigger] right[i]),
    ensures
        shown_size(true, encode_utf8(left + crate::text::decimal(n as nat) + right), stderr) == Ok::<
            u64,
            InspectErrorView,
        >(n),
{
    let number = crate::text::decimal(n as nat);
    let text = left + number + right;
    encode_utf8_valid_utf8(text);
    encode_utf8_decode_utf8(text);
    crate::text::lemma_trimmed_blanks(left, number, right);
    crate::text::lemma_decimal_is_digits(n as nat);
    assert(crate::text::is_digit(number[0]) && crate::text::is_digit(number[number.len() - 1]));
    assert(crate::text::trimmed(number) =~= number);
    crate::text::lemma_decimal_reads_back(n as nat, u64::MAX as nat);
}

/// What an inspection shows is the text that docker wrote, without the white space around it.
pub proof fn lemma_text_is_shown(
    left: Seq<char>,
    text: Seq<char>,
    right: Seq<char>,
    stderr: Seq<u8>,
)
    requires
        forall|i: int| 0 <= i < left.len() ==> crate::text::is_white_space(#[trigger] left[i]),
        forall|i: int| 0 <= i < right.len() ==> crate::text::is_white_space(#[trigger] right[i]),
        text.len() > 0 ==> !crate::text::is_white_space(text[0]) && !crate::text::is_white_space(
            text.last(),
        ),
    ensures
        shown(true, encode_utf8(left + text + right), stderr) == Ok::<Seq<char>, InspectErrorView>(
            text,
        ),
        crate::text::unsigned_value(text, u64::MAX as nat) matches Err(cause) ==> shown_size(
            true,
            encode_utf8(left + text + right),
            stderr,
        ) == Err::<u64, InspectErrorView>(InspectErrorView::Size(cause)),
{
    encode_utf8_valid_utf8(left + text + right);
    encode_utf8_decode_utf8(left + text + right);
    crate::text::lemma_trimmed_blanks(left, text, right);
    assert(crate::text::trimmed(text) =~= text);
}

/// Where an inspection fails, what docker wrote to standard error is all that counts, for the size
/// as for the date; and what is not UTF-8 tells neither.
pub proof fn lemma_failed_inspection(stdout: Seq<u8>, stderr: Seq<u8>, date: Option<i128>)
    ensures
        shown_size(false, stdout, stderr) == Err::<u64, InspectErrorView>(
            InspectErrorView::Failed(crate::text::utf8_lossy(stderr)),
        ),
        shown_time(shown(false, stdout, stderr), date) == Err::<i128, InspectErrorView>(
            InspectErrorView::Failed(crate::text::utf8_lossy(stderr)),
        ),
        !valid_utf8(stdout) ==> shown_size(true, stdout, stderr) == Err::<u64, InspectErrorView>(
            InspectErrorView::NonUtf8,
        ),
        !valid_utf8(stdout) ==> shown_time(shown(true, stdout, stderr), date) == Err::<
            i128,
            InspectErrorView,
        >(InspectErrorView::NonUtf8),
{
}

/// Where an inspection shows a text, the image was created at the moment that the text names, and it
/// is an error where it names none.
pub proof fn lemma_date_is_shown(text: Seq<char>, nanos: i128)
    ensures
        shown_time(Ok(text), Some(nanos)) == Ok::<i128, InspectErrorView>(nanos),
        shown_time(Ok(text), None) == Err::<i128, InspectErrorView>(InspectErrorView::Date),
{
}

/// What is said of an inspection names the field, and repeats what docker said.
pub proof fn lemma_inspection_is_explained(field: Seq<char>, stderr: Seq<char>, cause: IntError)
    ensures
        inspect_text(InspectErrorView::Failed(stderr), field) == "error inspecting "@ + field
            + " of docker image: "@ + stderr,
        inspect_text(InspectErrorView::NonUtf8, field) == "error parsing image "@ + field,
        inspect_text(InspectErrorView::Size(cause), field) == "error parsing image "@ + field,
        inspect_text(InspectErrorView::Date, field) == "error parsing image "@ + field,
{
}

} // verus!
