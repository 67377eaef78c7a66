//! The files of a run: where they are and where they go.

use vstd::prelude::*;
use vstd::string::*;
use vstd::utf8::*;

use crate::agent::{RunCommand, RunCommandView, Stdio, StdioView};
use crate::paths::UnixPath;
use crate::text::{copy_bytes, utf8_bytes};

verus! {

// ---------------------------------------------------------------------------------------------
// Directories
// ---------------------------------------------------------------------------------------------

/// The command that creates the directory `dir` and those that it is in.
pub open spec fn mkdir_p_spec(dir: Seq<u8>) -> RunCommandView {
    RunCommandView {
        program: encode_utf8("mkdir"@),
        args: seq![encode_utf8("-p"@), dir],
        stdin: StdioView::Capture,
        stdout: StdioView::Capture,
        stderr: StdioView::Capture,
    }
}

/// The command that creates the directory `dir` and those that it is in.
pub fn mkdir_p_command(dir: &UnixPath) -> (command: RunCommand)
    ensures
        command@ == mkdir_p_spec(dir@),
{
    let mut command = RunCommand::new("mkdir");
    assert(command.args@.len() == command@.args.len());
    command.args.push(utf8_bytes("-p"));
    command.args.push(copy_bytes(&dir.bytes));
    assert(command@.args =~= seq![encode_utf8("-p"@), dir@]);
    command
}

/// What is said of a working directory that cannot be created.
pub fn workdir_context(dir: &UnixPath) -> (text: String)
    ensures
        text@ == "failed to create WORKDIR: "@ + crate::text::utf8_lossy(dir@),
{
    let mut text = "failed to create WORKDIR: ".to_string();
    text.append(dir.display().as_str());
    text
}

/// What is said of a directory for copies that cannot be created.
pub fn copy_dir_context(dir: &UnixPath) -> (text: String)
    ensures
        text@ == "failed to create "@ + crate::text::utf8_lossy(dir@),
{
    let mut text = "failed to create ".to_string();
    text.append(dir.display().as_str());
    text
}

/// What is said of a directory for the output of the monitor that cannot be created.
pub fn output_dir_context(dir: &UnixPath) -> (text: String)
    ensures
        text@ == "failed to create "@ + crate::text::utf8_lossy(dir@) + " to copy stdout/stderr"@,
{
    let mut text = copy_dir_context(dir);
    text.append(" to copy stdout/stderr");
    text
}

/// What is said of a file for statistics that cannot be opened.
pub fn stats_context(file: &UnixPath) -> (text: String)
    ensures
        text@ == "failed to open stats file: "@ + crate::text::utf8_lossy(file@),
{
    let mut text = "failed to open stats file: ".to_string();
    text.append(file.display().as_str());
    text
}

// ---------------------------------------------------------------------------------------------
// Processes
// ---------------------------------------------------------------------------------------------

/// A process to start: the template of its command, and where its streams lead.
#[derive(Debug)]
pub struct SpawnRequest {
    pub command: String,
    pub stdin: Stdio,
    pub stdout: Stdio,
    pub stderr: Stdio,
}

/// A [`SpawnRequest`] over its characters and bytes.
pub struct SpawnRequestView {
    pub command: Seq<char>,
    pub stdin: StdioView,
    pub stdout: StdioView,
    pub stderr: StdioView,
}

impl View for SpawnRequest {
    type V = SpawnRequestView;

    open spec fn view(&self) -> SpawnRequestView {
        SpawnRequestView {
            command: self.command@,
            stdin: self.stdin@,
            stdout: self.stdout@,
            stderr: self.stderr@,
        }
    }
}

/// `name` in the directory `dir`.
pub open spec fn in_dir(dir: Seq<u8>, name: Seq<char>) -> Seq<u8> {
    crate::paths::joined(dir, encode_utf8(name))
}

/// A process whose output goes to the files `stdout` and `stderr` of the working directory.
pub open spec fn spawn_spec(
    workdir: Seq<u8>,
    command: Seq<char>,
    stdout: Seq<char>,
    stderr: Seq<char>,
) -> SpawnRequestView {
    SpawnRequestView {
        command,
        stdin: StdioView::Null,
        stdout: StdioView::File(in_dir(workdir, stdout)),
        stderr: StdioView::File(in_dir(workdir, stderr)),
    }
}

pub(crate) fn spawn_request(
    workdir: &UnixPath,
    command: &String,
    stdout: &str,
    stderr: &str,
) -> (request: SpawnRequest)
    ensures
        request@ == spawn_spec(workdir@, command@, stdout@, stderr@),
{
    SpawnRequest {
        command: command.clone(),
        stdin: Stdio::Null,
        stdout: Stdio::File(workdir.join(stdout)),
        stderr: Stdio::File(workdir.join(stderr)),
    }
}

// ---------------------------------------------------------------------------------------------
// Statistics
// ---------------------------------------------------------------------------------------------

/// Statistics to copy from the agent's file `src` to the end of the host's file `dst`.
#[derive(Debug)]
pub struct StatsCopy {
    pub src: UnixPath,
    pub dst: UnixPath,
    pub header: String,
}

/// A [`StatsCopy`] over its characters and bytes.
pub struct StatsCopyView {
    pub src: Seq<u8>,
    pub dst: Seq<u8>,
    pub header: Seq<char>,
}

impl View for StatsCopy {
    type V = StatsCopyView;

    open spec fn view(&self) -> StatsCopyView {
        StatsCopyView { src: self.src@, dst: self.dst@, header: self.header@ }
    }
}

impl Clone for StatsCopy {
    fn clone(&self) -> (copy: Self)
        ensures
            copy@ == self@,
    {
        StatsCopy {
            src: self.src.clone(),
            dst: self.dst.clone(),
            header: self.header.clone(),
        }
    }
}

/// The byte that ends a line.
pub const LINE_END: u8 = 0x0a;

/// What is written to a file of `len` bytes: the header first where the file is empty.
pub open spec fn stats_written(len: nat, header: Seq<char>, data: Seq<u8>) -> Seq<u8> {
    if len == 0 {
        encode_utf8(header).push(LINE_END) + data
    } else {
        data
    }
}

/// What is to be written to the end of a file of `len` bytes. The header is written unless another
/// trial has written it.
pub fn copy_icicle_stats(len: u64, header: &str, data: &Vec<u8>) -> (bytes: Vec<u8>)
    ensures
        bytes@ == stats_written(len as nat, header@, data@),
{
    if len == 0 {
        let mut bytes = utf8_bytes(header);
        bytes.push(LINE_END);
        let mut rest = copy_bytes(data);
        bytes.append(&mut rest);
        bytes
    } else {
        copy_bytes(data)
    }
}

/// A file after statistics were added to it.
pub open spec fn with_stats(file: Seq<u8>, header: Seq<char>, data: Seq<u8>) -> Seq<u8> {
    file + stats_written(file.len(), header, data)
}

/// A file after the statistics of several trials were added to it.
pub open spec fn with_trials(file: Seq<u8>, header: Seq<char>, trials: Seq<Seq<u8>>) -> Seq<u8>
    decreases trials.len(),
{
    if trials.len() == 0 {
        file
    } else {
        with_stats(with_trials(file, header, trials.drop_last()), header, trials.last())
    }
}

/// However many trials add their statistics to a new file, it holds the header once, at its start,
/// and then what each of them added.
pub proof fn lemma_header_once(header: Seq<char>, trials: Seq<Seq<u8>>)
    requires
        trials.len() > 0,
    ensures
        with_trials(Seq::empty(), header, trials) == encode_utf8(header).push(LINE_END)
            + trials.flatten(),
        with_trials(Seq::empty(), header, trials) == encode_utf8(header) + seq![0x0au8]
            + trials.flatten(),
    decreases trials.len(),
{
    let before = trials.drop_last();
    let head = encode_utf8(header).push(LINE_END);
    assert(head =~= encode_utf8(header) + seq![0x0au8]);
    assert(trials =~= before.push(trials.last()));
    before.lemma_flatten_push(trials.last());
    if before.len() == 0 {
        assert(before =~= Seq::<Seq<u8>>::empty());
        assert(before.flatten() =~= Seq::<u8>::empty());
        assert(with_trials(Seq::empty(), header, before) =~= Seq::<u8>::empty());
        assert(with_trials(Seq::empty(), header, trials) =~= head + trials.flatten());
    } else {
        lemma_header_once(header, before);
        assert(with_trials(Seq::empty(), header, trials) =~= head + trials.flatten());
    }
}

/// A file that is not empty gets no header.
pub proof fn lemma_no_second_header(file: Seq<u8>, header: Seq<char>, data: Seq<u8>)
    requires
        file.len() > 0,
    ensures
        with_stats(file, header, data) == file + data,
{
}

// ---------------------------------------------------------------------------------------------
// Copies
// ---------------------------------------------------------------------------------------------

/// A file of the agent that is copied to a file of the host.
#[derive(Debug)]
pub struct FileCopy {
    pub src: UnixPath,
    pub dst: UnixPath,
}

impl Clone for FileCopy {
    fn clone(&self) -> (copy: Self)
        ensures
            copy@ == self@,
    {
        FileCopy { src: self.src.clone(), dst: self.dst.clone() }
    }
}

impl View for FileCopy {
    type V = (Seq<u8>, Seq<u8>);

    open spec fn view(&self) -> (Seq<u8>, Seq<u8>) {
        (self.src@, self.dst@)
    }
}

pub open spec fn copies_view(copies: Seq<FileCopy>) -> Seq<(Seq<u8>, Seq<u8>)> {
    copies.map_values(|copy: FileCopy| copy@)
}

/// The file `name`, copied from one directory to another.
pub open spec fn copy_of(from: Seq<u8>, to: Seq<u8>, name: Seq<char>) -> (Seq<u8>, Seq<u8>) {
    (in_dir(from, name), in_dir(to, name))
}

fn file_copy(from: &UnixPath, to: &UnixPath, name: &str) -> (copy: FileCopy)
    ensures
        copy@ == copy_of(from@, to@, name@),
{
    FileCopy { src: from.join(name), dst: to.join(name) }
}

/// The copies that keep the output of the monitor.
pub open spec fn monitor_output(workdir: Seq<u8>, dir: Seq<u8>) -> Seq<(Seq<u8>, Seq<u8>)> {
    seq![copy_of(workdir, dir, "monitor.stdout"@), copy_of(workdir, dir, "monitor.stderr"@)]
}

/// The copies that keep what a run of the fuzzer left behind.
pub open spec fn fuzzing_metadata(
    workdir: Seq<u8>,
    monitor_dir: Option<Seq<u8>>,
    dir: Seq<u8>,
) -> Seq<(Seq<u8>, Seq<u8>)> {
    monitor_output(workdir, dir) + seq![
        copy_of(workdir, dir, "fuzzer.stdout"@),
        copy_of(workdir, dir, "fuzzer.stderr"@),
    ] + match monitor_dir {
        Some(from) => seq![
            copy_of(from, dir, "hit_blocks.json"@),
            copy_of(from, dir, "input_graph.json"@),
        ],
        None => Seq::empty(),
    }
}

/// The copies that keep the output of the monitor in `dir`.
pub fn copy_monitor_output(workdir: &UnixPath, dir: &UnixPath) -> (copies: Vec<FileCopy>)
    ensures
        copies_view(copies@) == monitor_output(workdir@, dir@),
{
    let mut copies: Vec<FileCopy> = Vec::new();
    copies.push(file_copy(workdir, dir, "monitor.stdout"));
    copies.push(file_copy(workdir, dir, "monitor.stderr"));
    assert(copies_view(copies@) =~= monitor_output(workdir@, dir@));
    copies
}

/// The copies that keep what a run of the fuzzer left behind in `dir`.
pub fn copy_fuzzing_metadata(
    workdir: &UnixPath,
    monitor_dir: &Option<UnixPath>,
    dir: &UnixPath,
) -> (copies: Vec<FileCopy>)
    ensures
        copies_view(copies@) == fuzzing_metadata(
            workdir@,
            match monitor_dir {
                Some(from) => Some(from@),
                None => None,
            },
            dir@,
        ),
{
    let mut copies = copy_monitor_output(workdir, dir);
    let ghost output = copies_view(copies@);
    copies.push(file_copy(workdir, dir, "fuzzer.stdout"));
    copies.push(file_copy(workdir, dir, "fuzzer.stderr"));
    assert(copies_view(copies@) =~= output + seq![
        copy_of(workdir@, dir@, "fuzzer.stdout"@),
        copy_of(workdir@, dir@, "fuzzer.stderr"@),
    ]);
    let ghost fuzzer = copies_view(copies@);
    match monitor_dir {
        Some(from) => {
            copies.push(file_copy(from, dir, "hit_blocks.json"));
            copies.push(file_copy(from, dir, "input_graph.json"));
            assert(copies_view(copies@) =~= fuzzer + seq![
                copy_of(from@, dir@, "hit_blocks.json"@),
                copy_of(from@, dir@, "input_graph.json"@),
            ]);
        },
        None => {
            assert(copies_view(copies@) =~= fuzzer + Seq::<(Seq<u8>, Seq<u8>)>::empty());
        },
    }
    copies
}

/// Every copy lands in the directory that it is made for.
pub proof fn lemma_copies_land_in_dir(
    workdir: Seq<u8>,
    monitor_dir: Option<Seq<u8>>,
    dir: Seq<u8>,
    i: int,
)
    requires
        0 <= i < fuzzing_metadata(workdir, monitor_dir, dir).len(),
    ensures
        exists|name: Seq<char>|
            fuzzing_metadata(workdir, monitor_dir, dir)[i].1 == #[trigger] in_dir(dir, name),
{
    let names = seq![
        "monitor.stdout"@,
        "monitor.stderr"@,
        "fuzzer.stdout"@,
        "fuzzer.stderr"@,
        "hit_blocks.json"@,
        "input_graph.json"@,
    ];
    assert(fuzzing_metadata(workdir, monitor_dir, dir)[i].1 == in_dir(dir, names[i]));
}

} // verus!
