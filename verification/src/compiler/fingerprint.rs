//! GNU compiler toolchain fingerprinting.
//!
//! A fingerprint covers the driver, the tools that it runs, its specs and all that it says of
//! itself. Which files are asked for and what the answers amount to is decided here; the files and
//! the driver itself are asked elsewhere.
use vstd::prelude::*;

use crate::bstr;
use crate::cache::request;
use crate::cache::request::Pair;
use crate::decimal;
use crate::digest;
use crate::framing;
use crate::framing::SizedWriter;
use crate::hex;
use crate::upath;
use crate::words;

verus! {

broadcast use bstr::lemma_views_push;

/// The size that the answer to one query can have.
pub const MAX_QUERY_OUTPUT: usize = 0x40_0000;

pub const COLON: u8 = 0x3a;

pub const LINE_FEED: u8 = 0x0a;

/// The exact process context used to resolve and query a compiler driver.
#[derive(Clone, Debug, PartialEq, Eq)]
pub struct FingerprintContext {
    pub driver: Vec<u8>,
    pub cwd: Vec<u8>,
    pub environment: Vec<Pair>,
}

/// The contents of a `FingerprintContext`.
#[verifier::ext_equal]
pub struct Context {
    pub driver: Seq<u8>,
    pub cwd: Seq<u8>,
    pub environment: Seq<Pair<Seq<u8>>>,
}

impl View for FingerprintContext {
    type V = Context;

    open spec fn view(&self) -> Context {
        Context {
            driver: self.driver@,
            cwd: self.cwd@,
            environment: request::pair_views(self.environment@),
        }
    }
}

impl FingerprintContext {
    /// A process context.
    pub fn new(driver: Vec<u8>, cwd: Vec<u8>, environment: Vec<Pair>) -> (context: Self)
        ensures
            context@ == (Context {
                driver: driver@,
                cwd: cwd@,
                environment: request::pair_views(environment@),
            }),
    {
        FingerprintContext { driver, cwd, environment }
    }
}

/// Content-addressed identity of a gfortran driver and its backend tools.
#[derive(Clone, Debug, PartialEq, Eq)]
pub struct CompilerFingerprint<B = Vec<u8>, D = [u8; 32]> {
    pub digest: D,
    pub driver: B,
    pub f951: B,
    pub assembler: B,
    pub major_version: u32,
}

impl View for CompilerFingerprint {
    type V = CompilerFingerprint<Seq<u8>, Seq<u8>>;

    open spec fn view(&self) -> CompilerFingerprint<Seq<u8>, Seq<u8>> {
        CompilerFingerprint {
            digest: self.digest@,
            driver: self.driver@,
            f951: self.f951@,
            assembler: self.assembler@,
            major_version: self.major_version,
        }
    }
}

impl CompilerFingerprint {
    /// The digest of the toolchain.
    pub fn digest(&self) -> (digest: &[u8; 32])
        ensures
            digest@ == self@.digest,
    {
        &self.digest
    }

    /// The digest of the toolchain in hexadecimal.
    pub fn digest_hex(&self) -> (text: String)
        ensures
            text@ == hex::hex_text(self@.digest),
    {
        hex::encode(self.digest.as_slice())
    }
}

/// Why a toolchain has no fingerprint.
#[derive(Clone, Debug, PartialEq, Eq)]
pub enum FingerprintError<B = Vec<u8>, S = String> {
    DriverNotFound(B),
    ReadTool { path: B, source: S },
    Execute { program: B, source: S },
    CommandFailed { program: B, status: S },
    MissingToolPath { program: B },
    QueryOutputTooLarge { program: B, limit: usize },
    CacheIo(S),
    InvalidRecord(S),
}

/// The contents of a `FingerprintError`.
pub type Fault = FingerprintError<Seq<u8>, Seq<char>>;

impl View for FingerprintError {
    type V = FingerprintError<Seq<u8>, Seq<char>>;

    open spec fn view(&self) -> Fault {
        match *self {
            FingerprintError::DriverNotFound(driver) => FingerprintError::DriverNotFound(driver@),
            FingerprintError::ReadTool { path, source } => FingerprintError::ReadTool {
                path: path@,
                source: source@,
            },
            FingerprintError::Execute { program, source } => FingerprintError::Execute {
                program: program@,
                source: source@,
            },
            FingerprintError::CommandFailed { program, status } => {
                FingerprintError::CommandFailed { program: program@, status: status@ }
            },
            FingerprintError::MissingToolPath { program } => FingerprintError::MissingToolPath {
                program: program@,
            },
            FingerprintError::QueryOutputTooLarge { program, limit } => {
                FingerprintError::QueryOutputTooLarge { program: program@, limit }
            },
            FingerprintError::CacheIo(message) => FingerprintError::CacheIo(message@),
            FingerprintError::InvalidRecord(message) => FingerprintError::InvalidRecord(message@),
        }
    }
}

/// The words of an error. `shown` is how the program or path that it is about is shown.
pub open spec fn error_text(error: Fault, shown: Seq<char>) -> Seq<char> {
    match error {
        FingerprintError::DriverNotFound(_) => "compiler driver "@ + shown + " was not found"@,
        FingerprintError::ReadTool { source, .. } => {
            "failed to read compiler tool "@ + shown + ": "@ + source
        },
        FingerprintError::Execute { source, .. } => "failed to execute "@ + shown + ": "@ + source,
        FingerprintError::CommandFailed { status, .. } => {
            "compiler command "@ + shown + " exited with "@ + status
        },
        FingerprintError::MissingToolPath { .. } => {
            "compiler command "@ + shown + " did not print a tool path"@
        },
        FingerprintError::QueryOutputTooLarge { limit, .. } => {
            "compiler command "@
                + shown
                + " produced more than "@
                + words::number_text(limit as nat)
                + " bytes"@
        },
        FingerprintError::CacheIo(text) => "compiler identity cache I/O failed: "@ + text,
        FingerprintError::InvalidRecord(text) => {
            "compiler identity cache record is invalid: "@ + text
        },
    }
}

impl FingerprintError {
    /// The words of the error. `shown` is how the program or path that it is about is shown.
    pub fn message(&self, shown: &str) -> (text: String)
        ensures
            text@ == error_text(self@, shown@),
    {
        match self {
            FingerprintError::DriverNotFound(_) => words::three(
                "compiler driver ",
                shown,
                " was not found",
            ),
            FingerprintError::ReadTool { source, .. } => words::four(
                "failed to read compiler tool ",
                shown,
                ": ",
                source.as_str(),
            ),
            FingerprintError::Execute { source, .. } => words::four(
                "failed to execute ",
                shown,
                ": ",
                source.as_str(),
            ),
            FingerprintError::CommandFailed { status, .. } => words::four(
                "compiler command ",
                shown,
                " exited with ",
                status.as_str(),
            ),
            FingerprintError::MissingToolPath { .. } => words::three(
                "compiler command ",
                shown,
                " did not print a tool path",
            ),
            FingerprintError::QueryOutputTooLarge { limit, .. } => words::five(
                "compiler command ",
                shown,
                " produced more than ",
                words::number(*limit as u64).as_str(),
                " bytes",
            ),
            FingerprintError::CacheIo(text) => words::two(
                "compiler identity cache I/O failed: ",
                text.as_str(),
            ),
            FingerprintError::InvalidRecord(text) => words::two(
                "compiler identity cache record is invalid: ",
                text.as_str(),
            ),
        }
    }
}

/// Where a program was found, and the places before it where it was not.
#[derive(Clone, Debug, PartialEq, Eq)]
pub struct ResolutionObservation {
    pub selected: Vec<u8>,
    pub earlier_absent: Vec<Vec<u8>>,
}

/// The contents of a `ResolutionObservation`.
#[verifier::ext_equal]
pub struct Resolution {
    pub selected: Seq<u8>,
    pub earlier_absent: Seq<Seq<u8>>,
}

impl View for ResolutionObservation {
    type V = Resolution;

    open spec fn view(&self) -> Resolution {
        Resolution {
            selected: self.selected@,
            earlier_absent: bstr::views(self.earlier_absent@),
        }
    }
}

/// What the driver says of itself.
#[derive(Clone, Debug, PartialEq, Eq)]
pub struct QueryOutputs<B = Vec<u8>> {
    pub f951: B,
    pub assembler: B,
    pub version: B,
    pub numeric_version: B,
    pub target: B,
    pub search_dirs: B,
    pub specs_name: B,
    pub specs: B,
}

impl View for QueryOutputs {
    type V = QueryOutputs<Seq<u8>>;

    open spec fn view(&self) -> QueryOutputs<Seq<u8>> {
        QueryOutputs {
            f951: self.f951@,
            assembler: self.assembler@,
            version: self.version@,
            numeric_version: self.numeric_version@,
            target: self.target@,
            search_dirs: self.search_dirs@,
            specs_name: self.specs_name@,
            specs: self.specs@,
        }
    }
}

/// The number of decimal digits with which a text begins.
pub open spec fn leading_digits(text: Seq<u8>) -> nat
    decreases text.len(),
{
    if text.len() > 0 && bstr::is_digit(text[0]) {
        1 + leading_digits(text.skip(1))
    } else {
        0
    }
}

/// The number with which a version begins.
pub open spec fn major_of(version: Seq<u8>) -> Option<nat> {
    let text = bstr::trimmed(version);
    decimal::parsed(text.take(leading_digits(text) as int), u32::MAX as nat)
}

/// The number with which a version begins.
pub fn parse_major_version(value: &[u8]) -> (major: Option<u32>)
    ensures
        match major {
            Some(number) => major_of(value@) == Some(number as nat),
            None => major_of(value@) is None,
        },
{
    let text = bstr::trim_ascii(value);
    let mut end: usize = 0;
    assert(text@.skip(0) =~= text@);
    while end < text.len() && 0x30 <= text[end] && text[end] <= 0x39
        invariant
            end <= text.len(),
            leading_digits(text@) == end + leading_digits(text@.skip(end as int)),
        decreases text.len() - end,
    {
        assert(text@.skip(end as int).skip(1) =~= text@.skip(end + 1));
        end += 1;
    }
    match decimal::parse(bstr::take(text, end), 0xffff_ffff) {
        Some(number) => Some(number as u32),
        None => None,
    }
}

/// The value of the last variable of a name.
pub open spec fn last_value(environment: Seq<Pair<Seq<u8>>>, name: Seq<u8>) -> Option<Seq<u8>>
    decreases environment.len(),
{
    if environment.len() == 0 {
        None
    } else if environment.last().name == name {
        Some(environment.last().value)
    } else {
        last_value(environment.drop_last(), name)
    }
}

/// The `PATH` of an environment.
pub fn path_from_environment(environment: &Vec<Pair>) -> (path: Option<Vec<u8>>)
    ensures
        bstr::opt_view(path) == last_value(
            request::pair_views(environment@),
            bstr::utf8("PATH"@),
        ),
{
    let ghost all = request::pair_views(environment@);
    let mut count: usize = environment.len();
    assert(all.take(count as int) =~= all);
    while count > 0
        invariant
            count <= environment.len(),
            all == request::pair_views(environment@),
            last_value(all, bstr::utf8("PATH"@)) == last_value(
                all.take(count as int),
                bstr::utf8("PATH"@),
            ),
        decreases count,
    {
        assert(all.take(count as int).drop_last() =~= all.take(count - 1));
        assert(all.take(count as int).last() == environment@[count - 1]@);
        if bstr::is(environment[count - 1].name.as_slice(), "PATH") {
            return Some(bstr::copy(environment[count - 1].value.as_slice()));
        }
        count -= 1;
    }
    None
}

/// The first line that begins with `prefix`, without it.
pub open spec fn line_after(lines: Seq<Seq<u8>>, prefix: Seq<u8>, index: int) -> Option<Seq<u8>>
    decreases lines.len() - index,
{
    if index >= lines.len() {
        None
    } else if bstr::has_prefix(lines[index], prefix) {
        Some(lines[index].skip(prefix.len() as int))
    } else {
        line_after(lines, prefix, index + 1)
    }
}

/// The directories of a list that are named, seen from the working directory.
pub open spec fn named_directories(list: Seq<Seq<u8>>, cwd: Seq<u8>) -> Seq<Seq<u8>>
    decreases list.len(),
{
    if list.len() == 0 {
        Seq::empty()
    } else if list.last().len() == 0 {
        named_directories(list.drop_last(), cwd)
    } else {
        named_directories(list.drop_last(), cwd).push(upath::joined(cwd, list.last()))
    }
}

/// The directories in which the driver looks for programs, from what it prints.
pub open spec fn program_roots(printed: Seq<u8>, cwd: Seq<u8>) -> Seq<Seq<u8>> {
    let stdout = printed.take(bstr::first(printed, 0) as int);
    match line_after(bstr::pieces(stdout, LINE_FEED), bstr::utf8("programs: ="@), 0) {
        None => Seq::empty(),
        Some(list) => named_directories(bstr::pieces(list, COLON), cwd),
    }
}

/// The directories in which the driver looks for programs, from what it prints.
pub fn parse_program_search_dirs(value: &[u8], cwd: &[u8]) -> (roots: Vec<Vec<u8>>)
    ensures
        bstr::views(roots@) == program_roots(value@, cwd@),
{
    let stdout = bstr::take(value, bstr::find_or_end(value, 0));
    let lines = bstr::split(stdout, LINE_FEED);
    let ghost all = bstr::views(lines@);
    let ghost prefix = bstr::utf8("programs: ="@);
    let mut index: usize = 0;
    while index < lines.len()
        invariant
            index <= lines.len(),
            all == bstr::views(lines@),
            all == bstr::pieces(stdout@, LINE_FEED),
            stdout@ == value@.take(bstr::first(value@, 0) as int),
            prefix == bstr::utf8("programs: ="@),
            line_after(all, prefix, 0) == line_after(all, prefix, index as int),
        decreases lines.len() - index,
    {
        assert(all[index as int] == lines@[index as int]@);
        if let Some(list) = bstr::strip_prefix(lines[index].as_slice(), "programs: =") {
            return named(list, cwd);
        }
        index += 1;
    }
    let none: Vec<Vec<u8>> = Vec::new();
    assert(bstr::views(none@) =~= Seq::empty());
    none
}

fn named(list: &[u8], cwd: &[u8]) -> (directories: Vec<Vec<u8>>)
    ensures
        bstr::views(directories@) == named_directories(bstr::pieces(list@, COLON), cwd@),
{
    let parts = bstr::split(list, COLON);
    let ghost all = bstr::views(parts@);
    let mut directories: Vec<Vec<u8>> = Vec::new();
    let mut index: usize = 0;
    assert(bstr::views(directories@) =~= Seq::empty());
    assert(all.take(0) =~= Seq::empty());
    while index < parts.len()
        invariant
            index <= parts.len(),
            all == bstr::views(parts@),
            bstr::views(directories@) == named_directories(all.take(index as int), cwd@),
        decreases parts.len() - index,
    {
        assert(all.take(index + 1).drop_last() =~= all.take(index as int));
        assert(all.take(index + 1).last() == parts@[index as int]@);
        if parts[index].len() > 0 {
            directories.push(upath::join(cwd, parts[index].as_slice()));
        }
        index += 1;
    }
    assert(all.take(index as int) =~= all);
    directories
}

/// What is at a place where a program could be.
#[derive(Clone, Copy, Debug, PartialEq, Eq, Structural)]
pub enum CandidateState {
    File,
    Absent,
    /// Something that is no file, or that cannot be looked at.
    Other,
}

/// A program below each of the directories.
pub open spec fn below(directories: Seq<Seq<u8>>, program: Seq<u8>) -> Seq<Seq<u8>> {
    directories.map_values(|directory: Seq<u8>| upath::joined(directory, program))
}

/// A program below each directory of a search path, seen from the working directory.
pub open spec fn on_path(path: Seq<u8>, cwd: Seq<u8>, program: Seq<u8>) -> Seq<Seq<u8>> {
    bstr::pieces(path, COLON).map_values(
        |directory: Seq<u8>|
            if directory.len() == 0 {
                upath::joined(cwd, program)
            } else {
                upath::joined(upath::joined(cwd, directory), program)
            },
    )
}

/// The path has more than one component, so that it is not searched for.
pub open spec fn is_located(path: Seq<u8>) -> bool {
    upath::components_of(path).len() > 1
}

/// The places where a program is looked for, in order.
pub open spec fn candidates_of(
    program: Seq<u8>,
    cwd: Seq<u8>,
    path: Option<Seq<u8>>,
    roots: Seq<Seq<u8>>,
) -> Seq<Seq<u8>> {
    if is_located(program) {
        seq![upath::joined(cwd, program)]
    } else if path is Some {
        below(roots, program) + on_path(path->0, cwd, program)
    } else {
        below(roots, program)
    }
}

/// The places where a program is looked for, in order.
pub fn program_candidates(
    program: &[u8],
    cwd: &[u8],
    path: &Option<Vec<u8>>,
    roots: &Vec<Vec<u8>>,
) -> (candidates: Vec<Vec<u8>>)
    ensures
        bstr::views(candidates@) == candidates_of(
            program@,
            cwd@,
            bstr::opt_view(*path),
            bstr::views(roots@),
        ),
{
    let mut candidates: Vec<Vec<u8>> = Vec::new();
    if upath::components(program).len() > 1 {
        candidates.push(upath::join(cwd, program));
        assert(bstr::views(candidates@) =~= seq![upath::joined(cwd@, program@)]);
        return candidates;
    }
    let ghost all = below(bstr::views(roots@), program@);
    let mut index: usize = 0;
    assert(bstr::views(candidates@) =~= all.take(0));
    while index < roots.len()
        invariant
            index <= roots.len(),
            all == below(bstr::views(roots@), program@),
            bstr::views(candidates@) == all.take(index as int),
        decreases roots.len() - index,
    {
        candidates.push(upath::join(roots[index].as_slice(), program));
        assert(bstr::views(candidates@) =~= all.take(index + 1));
        index += 1;
    }
    assert(all.take(index as int) =~= all);
    if let Some(list) = path {
        let parts = bstr::split(list.as_slice(), COLON);
        let ghost found = on_path(list@, cwd@, program@);
        let mut part: usize = 0;
        assert(all + found.take(0) =~= all);
        while part < parts.len()
            invariant
                part <= parts.len(),
                found == on_path(list@, cwd@, program@),
                bstr::views(parts@) == bstr::pieces(list@, COLON),
                bstr::views(candidates@) == all + found.take(part as int),
            decreases parts.len() - part,
        {
            let directory = parts[part].as_slice();
            assert(directory@ == bstr::views(parts@)[part as int]);
            let candidate = if directory.len() == 0 {
                upath::join(cwd, program)
            } else {
                let seen = upath::join(cwd, directory);
                upath::join(seen.as_slice(), program)
            };
            candidates.push(candidate);
            assert(bstr::views(candidates@) =~= all + found.take(part + 1));
            part += 1;
        }
        assert(found.take(part as int) =~= found);
    }
    candidates
}

/// What is at a place, where it was looked at.
pub open spec fn state_at(states: Seq<CandidateState>, index: int) -> CandidateState {
    if 0 <= index < states.len() {
        states[index]
    } else {
        CandidateState::Other
    }
}

/// The first place with a file, where all places before it are empty.
pub open spec fn selection(
    candidates: Seq<Seq<u8>>,
    states: Seq<CandidateState>,
    index: int,
) -> Option<Resolution>
    decreases candidates.len() - index,
{
    if index >= candidates.len() {
        None
    } else {
        match state_at(states, index) {
            CandidateState::File => Some(
                Resolution {
                    selected: candidates[index],
                    earlier_absent: candidates.take(index),
                },
            ),
            CandidateState::Absent => selection(candidates, states, index + 1),
            CandidateState::Other => None,
        }
    }
}

/// Where a program is found. One that is not searched for has no places before it.
pub open spec fn resolution_of(
    program: Seq<u8>,
    candidates: Seq<Seq<u8>>,
    states: Seq<CandidateState>,
) -> Option<Resolution> {
    if is_located(program) && !(state_at(states, 0) is File) {
        None
    } else {
        selection(candidates, states, 0)
    }
}

/// Where a program is found, with what is at each of the places where it is looked for.
pub fn resolve_program(
    program: &[u8],
    candidates: &Vec<Vec<u8>>,
    states: &Vec<CandidateState>,
) -> (resolution: Option<ResolutionObservation>)
    ensures
        match resolution {
            Some(found) => resolution_of(program@, bstr::views(candidates@), states@) == Some(
                found@,
            ),
            None => resolution_of(program@, bstr::views(candidates@), states@) is None,
        },
{
    let ghost all = bstr::views(candidates@);
    if upath::components(program).len() > 1 {
        let present = states.len() > 0 && matches!(states[0], CandidateState::File);
        if !present {
            return None;
        }
    }
    let mut earlier_absent: Vec<Vec<u8>> = Vec::new();
    let mut index: usize = 0;
    assert(bstr::views(earlier_absent@) =~= all.take(0));
    while index < candidates.len()
        invariant
            index <= candidates.len(),
            all == bstr::views(candidates@),
            !(is_located(program@) && !(state_at(states@, 0) is File)),
            bstr::views(earlier_absent@) == all.take(index as int),
            selection(all, states@, 0) == selection(all, states@, index as int),
        decreases candidates.len() - index,
    {
        if index >= states.len() {
            return None;
        }
        assert(all[index as int] == candidates@[index as int]@);
        match states[index] {
            CandidateState::File => {
                return Some(
                    ResolutionObservation {
                        selected: bstr::copy(candidates[index].as_slice()),
                        earlier_absent,
                    },
                );
            },
            CandidateState::Absent => {
                earlier_absent.push(bstr::copy(candidates[index].as_slice()));
                assert(bstr::views(earlier_absent@) =~= all.take(index + 1));
            },
            CandidateState::Other => {
                return None;
            },
        }
        index += 1;
    }
    None
}

/// The driver uses its built-in specs.
pub open spec fn built_in_specs(printed: Seq<u8>) -> bool {
    bstr::trimmed(printed).len() == 0 || bstr::trimmed(printed) == bstr::utf8("specs"@)
}

/// The places where external specs are looked for, in order.
pub open spec fn specs_candidates_of(
    printed: Seq<u8>,
    cwd: Seq<u8>,
    roots: Seq<Seq<u8>>,
) -> Seq<Seq<u8>> {
    let path = bstr::trimmed(printed);
    if built_in_specs(printed) {
        Seq::empty()
    } else if upath::absolute(path) || is_located(path) {
        seq![upath::joined(cwd, path)]
    } else {
        below(roots, path)
    }
}

/// The places where external specs are looked for, in order.
pub fn specs_candidates(printed: &[u8], cwd: &[u8], roots: &Vec<Vec<u8>>) -> (candidates: Vec<
    Vec<u8>,
>)
    ensures
        bstr::views(candidates@) == specs_candidates_of(printed@, cwd@, bstr::views(roots@)),
{
    let path = bstr::trim_ascii(printed);
    if path.len() == 0 || bstr::is(path, "specs") {
        let candidates: Vec<Vec<u8>> = Vec::new();
        assert(bstr::views(candidates@) =~= Seq::empty());
        return candidates;
    }
    if upath::is_absolute(path) || upath::components(path).len() > 1 {
        let mut candidates: Vec<Vec<u8>> = Vec::new();
        candidates.push(upath::join(cwd, path));
        assert(bstr::views(candidates@) =~= seq![upath::joined(cwd@, path@)]);
        return candidates;
    }
    program_candidates(path, cwd, &None, roots)
}

/// The first place with a file.
pub open spec fn first_file(candidates: Seq<Seq<u8>>, files: Seq<bool>, index: int) -> Option<
    Seq<u8>,
>
    decreases candidates.len() - index,
{
    if index >= candidates.len() || index >= files.len() {
        None
    } else if files[index] {
        Some(candidates[index])
    } else {
        first_file(candidates, files, index + 1)
    }
}

/// Where the specs are found: nowhere in particular where they are built in.
pub open spec fn specs_of(printed: Seq<u8>, candidates: Seq<Seq<u8>>, files: Seq<bool>) -> Option<
    Option<Seq<u8>>,
> {
    if built_in_specs(printed) {
        Some(None)
    } else {
        match first_file(candidates, files, 0) {
            Some(path) => Some(Some(path)),
            None => None,
        }
    }
}

/// Where the specs are found, with whether each of the places where they are looked for is a file.
pub fn resolve_specs_path(
    printed: &[u8],
    candidates: &Vec<Vec<u8>>,
    files: &Vec<bool>,
) -> (specs: Option<Option<Vec<u8>>>)
    ensures
        match specs {
            Some(path) => specs_of(printed@, bstr::views(candidates@), files@) == Some(
                bstr::opt_view(path),
            ),
            None => specs_of(printed@, bstr::views(candidates@), files@) is None,
        },
{
    let path = bstr::trim_ascii(printed);
    if path.len() == 0 || bstr::is(path, "specs") {
        return Some(None);
    }
    let ghost all = bstr::views(candidates@);
    let mut index: usize = 0;
    while index < candidates.len() && index < files.len()
        invariant
            index <= candidates.len(),
            index <= files.len(),
            all == bstr::views(candidates@),
            !built_in_specs(printed@),
            first_file(all, files@, 0) == first_file(all, files@, index as int),
        decreases candidates.len() - index,
    {
        assert(all[index as int] == candidates@[index as int]@);
        if files[index] {
            return Some(Some(bstr::copy(candidates[index].as_slice())));
        }
        index += 1;
    }
    None
}

/// What a place where specs could be leads to.
#[derive(Clone, Debug, PartialEq, Eq)]
pub enum SpecsState<B = Vec<u8>> {
    Canonical(B),
    Absent,
    Failed,
}

/// Which places for specs are empty, and whether the search for specs is fully known by them.
#[verifier::ext_equal]
pub struct SpecsWitness {
    pub absent: Seq<Seq<u8>>,
    pub complete: bool,
}

/// The place of the specs below a directory.
pub open spec fn specs_below(root: Seq<u8>) -> Seq<u8> {
    upath::joined(root, bstr::utf8("specs"@))
}

/// The witness of the search for specs from `index` on.
pub open spec fn specs_witness_from(
    selected: Option<Seq<u8>>,
    roots: Seq<Seq<u8>>,
    states: Seq<SpecsState>,
    index: int,
    witness: SpecsWitness,
) -> SpecsWitness
    decreases roots.len() - index,
{
    if index >= roots.len() {
        SpecsWitness { complete: witness.complete && selected is None, ..witness }
    } else if index >= states.len() {
        specs_witness_from(
            selected,
            roots,
            states,
            index + 1,
            SpecsWitness { complete: false, ..witness },
        )
    } else {
        match states[index] {
            SpecsState::Canonical(path) => if selected is Some && upath::same_path(
                selected->0,
                path@,
            ) {
                witness
            } else {
                specs_witness_from(
                    selected,
                    roots,
                    states,
                    index + 1,
                    SpecsWitness { complete: false, ..witness },
                )
            },
            SpecsState::Absent => specs_witness_from(
                selected,
                roots,
                states,
                index + 1,
                SpecsWitness { absent: witness.absent.push(specs_below(roots[index])), ..witness },
            ),
            SpecsState::Failed => specs_witness_from(
                selected,
                roots,
                states,
                index + 1,
                SpecsWitness { complete: false, ..witness },
            ),
        }
    }
}

/// The witness of the search for specs, where `selected` is the canonical path of external specs
/// and `states` says what the place of specs below each root leads to.
pub open spec fn specs_witness(
    selected: Option<Seq<u8>>,
    roots: Seq<Seq<u8>>,
    states: Seq<SpecsState>,
) -> SpecsWitness {
    specs_witness_from(
        selected,
        roots,
        states,
        0,
        SpecsWitness { absent: Seq::empty(), complete: true },
    )
}

/// Which places for specs are empty, and whether the search for specs is fully known by them.
pub fn specs_resolution_witnesses(
    selected: &Option<Vec<u8>>,
    roots: &Vec<Vec<u8>>,
    states: &Vec<SpecsState>,
) -> (witness: (Vec<Vec<u8>>, bool))
    ensures
        specs_witness(bstr::opt_view(*selected), bstr::views(roots@), states@) == (SpecsWitness {
            absent: bstr::views(witness.0@),
            complete: witness.1,
        }),
{
    let ghost all = bstr::views(roots@);
    let ghost wanted = bstr::opt_view(*selected);
    let mut absent: Vec<Vec<u8>> = Vec::new();
    let mut complete = true;
    let mut index: usize = 0;
    assert(bstr::views(absent@) =~= Seq::empty());
    while index < roots.len()
        invariant
            index <= roots.len(),
            all == bstr::views(roots@),
            wanted == bstr::opt_view(*selected),
            specs_witness(wanted, all, states@) == specs_witness_from(
                wanted,
                all,
                states@,
                index as int,
                SpecsWitness { absent: bstr::views(absent@), complete },
            ),
        decreases roots.len() - index,
    {
        assert(all[index as int] == roots@[index as int]@);
        if index >= states.len() {
            complete = false;
        } else {
            match &states[index] {
                SpecsState::Canonical(path) => {
                    if let Some(chosen) = selected {
                        if upath::same(chosen.as_slice(), path.as_slice()) {
                            return (absent, complete);
                        }
                    }
                    complete = false;
                },
                SpecsState::Absent => {
                    absent.push(upath::join(roots[index].as_slice(), bstr::of("specs")));
                },
                SpecsState::Failed => {
                    complete = false;
                },
            }
        }
        index += 1;
    }
    let known = complete && selected.is_none();
    (absent, known)
}

/// What came of running the driver.
#[derive(Clone, Debug, PartialEq, Eq)]
pub enum QueryRun {
    /// The driver could not be run.
    Failed(String),
    /// The driver did not succeed.
    Exited(String),
    Answered { stdout: Vec<u8>, stderr: Vec<u8> },
}

/// The answer of the driver: what it printed, with what it printed as an error set apart.
pub open spec fn answer_of(program: Seq<u8>, run: QueryRun) -> Result<
    Seq<u8>,
    Fault,
> {
    match run {
        QueryRun::Failed(source) => Err(FingerprintError::Execute { program, source: source@ }),
        QueryRun::Exited(status) => Err(
            FingerprintError::CommandFailed { program, status: status@ },
        ),
        QueryRun::Answered { stdout, stderr } => if stdout@.len() + stderr@.len() + 8
            > MAX_QUERY_OUTPUT {
            Err(FingerprintError::QueryOutputTooLarge { program, limit: MAX_QUERY_OUTPUT })
        } else if stderr@.len() == 0 {
            Ok(stdout@)
        } else {
            Ok(stdout@ + bstr::utf8("\0stderr\0"@) + stderr@)
        },
    }
}

/// The answer of the driver, from what came of running it.
pub fn query_answer(program: &[u8], run: &QueryRun) -> (answer: Result<Vec<u8>, FingerprintError>)
    ensures
        match answer {
            Ok(bytes) => answer_of(program@, *run) == Ok::<Seq<u8>, Fault>(bytes@),
            Err(error) => answer_of(program@, *run) == Err::<Seq<u8>, _>(error@),
        },
{
    match run {
        QueryRun::Failed(source) => Err(
            FingerprintError::Execute { program: bstr::copy(program), source: source.clone() },
        ),
        QueryRun::Exited(status) => Err(
            FingerprintError::CommandFailed { program: bstr::copy(program), status: status.clone() },
        ),
        QueryRun::Answered { stdout, stderr } => {
            let too_large = stdout.len() > MAX_QUERY_OUTPUT || stderr.len() > MAX_QUERY_OUTPUT
                || stdout.len() + stderr.len() + 8 > MAX_QUERY_OUTPUT;
            if too_large {
                return Err(
                    FingerprintError::QueryOutputTooLarge {
                        program: bstr::copy(program),
                        limit: MAX_QUERY_OUTPUT,
                    },
                );
            }
            let mut combined = bstr::copy(stdout.as_slice());
            if stderr.len() > 0 {
                bstr::append_str(&mut combined, "\0stderr\0");
                bstr::append(&mut combined, stderr.as_slice());
            }
            Ok(combined)
        },
    }
}

/// The metadata by which a change of a tool while it is read is seen.
#[derive(Clone, Copy, Debug, PartialEq, Eq, Structural)]
pub struct ToolStat {
    pub device: u64,
    pub inode: u64,
    pub mode: u32,
    pub size: u64,
    pub modified_seconds: i64,
    pub modified_nanoseconds: i64,
    pub changed_seconds: i64,
    pub changed_nanoseconds: i64,
}

/// What was found when a tool was read.
#[derive(Debug)]
pub struct ToolReading {
    pub before: Result<ToolStat, String>,
    pub contents: Result<Vec<u8>, String>,
    pub after: Result<ToolStat, String>,
}

/// The contents of a tool, where it did not change while it was read.
pub open spec fn tool_contents(path: Seq<u8>, reading: ToolReading) -> Result<
    Seq<u8>,
    Fault,
> {
    match (reading.before, reading.contents, reading.after) {
        (Err(source), _, _) => Err(FingerprintError::ReadTool { path, source: source@ }),
        (_, Err(source), _) => Err(FingerprintError::ReadTool { path, source: source@ }),
        (_, _, Err(source)) => Err(FingerprintError::ReadTool { path, source: source@ }),
        (Ok(before), Ok(bytes), Ok(after)) => if bytes@.len() == before.size && before == after {
            Ok(bytes@)
        } else {
            Err(
                FingerprintError::ReadTool {
                    path,
                    source: "compiler tool changed while being fingerprinted"@,
                },
            )
        },
    }
}

/// The contents of a tool, where it did not change while it was read.
pub fn read_tool<'a>(path: &[u8], reading: &'a ToolReading) -> (contents: Result<
    &'a Vec<u8>,
    FingerprintError,
>)
    ensures
        match contents {
            Ok(bytes) => tool_contents(path@, *reading) == Ok::<Seq<u8>, Fault>(bytes@),
            Err(error) => tool_contents(path@, *reading) == Err::<Seq<u8>, _>(error@),
        },
{
    let before = match &reading.before {
        Ok(stat) => stat,
        Err(source) => {
            return Err(
                FingerprintError::ReadTool { path: bstr::copy(path), source: source.clone() },
            );
        },
    };
    let bytes = match &reading.contents {
        Ok(bytes) => bytes,
        Err(source) => {
            return Err(
                FingerprintError::ReadTool { path: bstr::copy(path), source: source.clone() },
            );
        },
    };
    let after = match &reading.after {
        Ok(stat) => stat,
        Err(source) => {
            return Err(
                FingerprintError::ReadTool { path: bstr::copy(path), source: source.clone() },
            );
        },
    };
    if bytes.len() as u64 != before.size || !(*before == *after) {
        return Err(
            FingerprintError::ReadTool {
                path: bstr::copy(path),
                source: "compiler tool changed while being fingerprinted".to_owned(),
            },
        );
    }
    Ok(bytes)
}

/// The answer about one tool, and what is at each of the places where it is looked for.
#[derive(Debug)]
pub struct ToolAnswer {
    pub run: QueryRun,
    pub states: Vec<CandidateState>,
    pub reading: ToolReading,
}

/// All that is found out about a toolchain from outside, in the order in which it is asked.
#[derive(Debug)]
pub struct ToolchainAnswers {
    pub cwd_is_directory: bool,
    pub driver_states: Vec<CandidateState>,
    pub search_dirs: QueryRun,
    pub f951: ToolAnswer,
    pub assembler: ToolAnswer,
    pub version: QueryRun,
    pub numeric_version: QueryRun,
    pub target: QueryRun,
    pub specs_name: QueryRun,
    pub specs: QueryRun,
    pub specs_files: Vec<bool>,
    /// The canonical path of external specs.
    pub specs_canonical: Option<Vec<u8>>,
    pub specs_states: Vec<SpecsState>,
    pub driver_reading: ToolReading,
    pub specs_reading: ToolReading,
}

/// A tool and the digest of its contents.
#[derive(Clone, Debug, PartialEq, Eq)]
pub struct ToolDigest<B = Vec<u8>, D = [u8; 32]> {
    pub path: B,
    pub digest: D,
}

impl View for ToolDigest {
    type V = ToolDigest<Seq<u8>, Seq<u8>>;

    open spec fn view(&self) -> ToolDigest<Seq<u8>, Seq<u8>> {
        ToolDigest { path: self.path@, digest: self.digest@ }
    }
}

/// The contents of a list of tool digests.
pub open spec fn tool_views(list: Seq<ToolDigest>) -> Seq<ToolDigest<Seq<u8>, Seq<u8>>> {
    list.map_values(|tool: ToolDigest| tool@)
}

/// The fingerprint of a toolchain with all that led to it.
#[derive(Clone, Debug, PartialEq, Eq)]
pub struct FingerprintObservation {
    pub fingerprint: CompilerFingerprint,
    pub driver_resolution: ResolutionObservation,
    pub f951_resolution: ResolutionObservation,
    pub assembler_resolution: ResolutionObservation,
    pub specs_path: Option<Vec<u8>>,
    pub specs_absent: Vec<Vec<u8>>,
    pub specs_resolution_complete: bool,
    pub tool_content_digests: Vec<ToolDigest>,
    pub query_outputs: QueryOutputs,
}

/// The contents of a `FingerprintObservation`.
#[verifier::ext_equal]
pub struct Toolchain {
    pub fingerprint: CompilerFingerprint<Seq<u8>, Seq<u8>>,
    pub driver_resolution: Resolution,
    pub f951_resolution: Resolution,
    pub assembler_resolution: Resolution,
    pub specs_path: Option<Seq<u8>>,
    pub specs_absent: Seq<Seq<u8>>,
    pub specs_resolution_complete: bool,
    pub tool_content_digests: Seq<ToolDigest<Seq<u8>, Seq<u8>>>,
    pub query_outputs: QueryOutputs<Seq<u8>>,
}

impl View for FingerprintObservation {
    type V = Toolchain;

    open spec fn view(&self) -> Toolchain {
        Toolchain {
            fingerprint: self.fingerprint@,
            driver_resolution: self.driver_resolution@,
            f951_resolution: self.f951_resolution@,
            assembler_resolution: self.assembler_resolution@,
            specs_path: bstr::opt_view(self.specs_path),
            specs_absent: bstr::views(self.specs_absent@),
            specs_resolution_complete: self.specs_resolution_complete,
            tool_content_digests: tool_views(self.tool_content_digests@),
            query_outputs: self.query_outputs@,
        }
    }
}

/// A tool: where it is and what it holds.
#[verifier::ext_equal]
pub struct Tool {
    pub path: Seq<u8>,
    pub contents: Seq<u8>,
}

/// What a fingerprint covers, in the order in which it is hashed.
pub open spec fn fingerprint_fields(
    driver: Tool,
    f951: Tool,
    assembler: Tool,
    specs: Option<Tool>,
    outputs: QueryOutputs<Seq<u8>>,
) -> Seq<Seq<u8>> {
    seq![
        bstr::utf8("fcache-gfortran-fingerprint-v2"@),
        driver.path,
        driver.contents,
        outputs.f951,
        f951.path,
        f951.contents,
        outputs.assembler,
        assembler.path,
        assembler.contents,
        outputs.version,
        outputs.numeric_version,
        outputs.target,
        outputs.search_dirs,
        outputs.specs_name,
    ] + (match specs {
        Some(tool) => seq![bstr::utf8("external-specs"@), tool.path, tool.contents],
        None => seq![bstr::utf8("built-in-specs"@)],
    }) + seq![outputs.specs]
}

/// Where a tool is found that the driver names in its answer.
pub open spec fn tool_resolution(
    driver: Seq<u8>,
    context: Context,
    roots: Seq<Seq<u8>>,
    answer: ToolAnswer,
) -> Result<(Resolution, Seq<u8>), Fault> {
    match answer_of(driver, answer.run) {
        Err(error) => Err(error),
        Ok(output) => {
            let program = bstr::trimmed(output);
            let path = last_value(context.environment, bstr::utf8("PATH"@));
            if program.len() == 0 {
                Err(FingerprintError::MissingToolPath { program: driver })
            } else {
                match resolution_of(
                    program,
                    candidates_of(program, context.cwd, path, roots),
                    answer.states@,
                ) {
                    None => Err(FingerprintError::MissingToolPath { program }),
                    Some(resolution) => Ok((resolution, output)),
                }
            }
        },
    }
}

/// Where a tool is found that the driver names in its answer.
fn tool_path(
    driver: &[u8],
    context: &FingerprintContext,
    roots: &Vec<Vec<u8>>,
    answer: &ToolAnswer,
) -> (outcome: Result<(ResolutionObservation, Vec<u8>), FingerprintError>)
    ensures
        match outcome {
            Ok(found) => tool_resolution(driver@, context@, bstr::views(roots@), *answer) == Ok::<_, Fault>((found.0@, found.1@)),
            Err(error) => tool_resolution(driver@, context@, bstr::views(roots@), *answer) == Err::<
                (Resolution, Seq<u8>),
                _,
            >(error@),
        },
{
    let output = query_answer(driver, &answer.run)?;
    let program = bstr::trim_ascii(output.as_slice());
    if program.len() == 0 {
        return Err(FingerprintError::MissingToolPath { program: bstr::copy(driver) });
    }
    let path = path_from_environment(&context.environment);
    let candidates = program_candidates(program, context.cwd.as_slice(), &path, roots);
    match resolve_program(program, &candidates, &answer.states) {
        Some(resolution) => Ok((resolution, output)),
        None => Err(FingerprintError::MissingToolPath { program: bstr::copy(program) }),
    }
}

/// What the driver says of itself, and where its tools are.
#[verifier::ext_equal]
pub struct Described {
    pub driver: Resolution,
    pub f951: Resolution,
    pub assembler: Resolution,
    pub major: u32,
    pub roots: Seq<Seq<u8>>,
    pub specs: Option<Seq<u8>>,
    pub outputs: QueryOutputs<Seq<u8>>,
}

/// Where the driver is found.
pub open spec fn driver_resolution(context: Context, answers: ToolchainAnswers) -> Result<
    Resolution,
    Fault,
> {
    if !upath::absolute(context.cwd) || !answers.cwd_is_directory {
        Err(
            FingerprintError::InvalidRecord(
                "compiler working directory must be an absolute existing directory"@,
            ),
        )
    } else {
        match resolution_of(
            context.driver,
            candidates_of(
                context.driver,
                context.cwd,
                last_value(context.environment, bstr::utf8("PATH"@)),
                Seq::empty(),
            ),
            answers.driver_states@,
        ) {
            None => Err(FingerprintError::DriverNotFound(context.driver)),
            Some(resolution) => Ok(resolution),
        }
    }
}

/// Where the driver is found.
pub fn resolve_driver(context: &FingerprintContext, answers: &ToolchainAnswers) -> (outcome: Result<
    ResolutionObservation,
    FingerprintError,
>)
    ensures
        match outcome {
            Ok(resolution) => driver_resolution(context@, *answers) == Ok::<_, Fault>(resolution@),
            Err(error) => driver_resolution(context@, *answers) == Err::<Resolution, _>(error@),
        },
{
    if !upath::is_absolute(context.cwd.as_slice()) || !answers.cwd_is_directory {
        return Err(
            FingerprintError::InvalidRecord(
                "compiler working directory must be an absolute existing directory".to_owned(),
            ),
        );
    }
    let none: Vec<Vec<u8>> = Vec::new();
    assert(bstr::views(none@) =~= Seq::empty());
    let path = path_from_environment(&context.environment);
    let candidates = program_candidates(
        context.driver.as_slice(),
        context.cwd.as_slice(),
        &path,
        &none,
    );
    match resolve_program(context.driver.as_slice(), &candidates, &answers.driver_states) {
        Some(resolution) => Ok(resolution),
        None => Err(FingerprintError::DriverNotFound(bstr::copy(context.driver.as_slice()))),
    }
}

/// What the driver says of itself, and where its tools are, with the first thing that is amiss.
pub open spec fn described(context: Context, answers: ToolchainAnswers) -> Result<
    Described,
    Fault,
> {
    match driver_resolution(context, answers) {
        Err(error) => Err(error),
        Ok(driver) => described_by(driver, context, answers),
    }
}

/// What a driver says of itself, and where its tools are, with the first thing that is amiss.
pub open spec fn described_by(
    driver: Resolution,
    context: Context,
    answers: ToolchainAnswers,
) -> Result<Described, Fault> {
    let program = driver.selected;
    match answer_of(program, answers.search_dirs) {
        Err(error) => Err(error),
        Ok(search_dirs) => {
            let roots = program_roots(search_dirs, context.cwd);
            match tool_resolution(program, context, roots, answers.f951) {
                Err(error) => Err(error),
                Ok((f951, f951_output)) => match tool_resolution(
                    program,
                    context,
                    roots,
                    answers.assembler,
                ) {
                    Err(error) => Err(error),
                    Ok((assembler, assembler_output)) => match versions(program, answers) {
                        Err(error) => Err(error),
                        Ok((version, numeric_version, major)) => match specs_answers(
                            program,
                            context.cwd,
                            roots,
                            answers,
                        ) {
                            Err(error) => Err(error),
                            Ok((target, specs_name, specs, path)) => Ok(
                                Described {
                                    driver,
                                    f951,
                                    assembler,
                                    major,
                                    roots,
                                    specs: path,
                                    outputs: QueryOutputs {
                                        f951: f951_output,
                                        assembler: assembler_output,
                                        version,
                                        numeric_version,
                                        target,
                                        search_dirs,
                                        specs_name,
                                        specs,
                                    },
                                },
                            ),
                        },
                    },
                },
            }
        },
    }
}

/// The versions that the driver prints, with the number with which the second begins.
pub open spec fn versions(program: Seq<u8>, answers: ToolchainAnswers) -> Result<
    (Seq<u8>, Seq<u8>, u32),
    Fault,
> {
    match answer_of(program, answers.version) {
        Err(error) => Err(error),
        Ok(version) => match answer_of(program, answers.numeric_version) {
            Err(error) => Err(error),
            Ok(numeric) => match major_of(numeric) {
                None => Err(
                    FingerprintError::CommandFailed {
                        program,
                        status: "compiler did not report a numeric major version"@,
                    },
                ),
                Some(major) => Ok((version, numeric, major as u32)),
            },
        },
    }
}

fn read_versions(program: &[u8], answers: &ToolchainAnswers) -> (outcome: Result<
    (Vec<u8>, Vec<u8>, u32),
    FingerprintError,
>)
    ensures
        match outcome {
            Ok(found) => versions(program@, *answers) == Ok::<_, Fault>((found.0@, found.1@, found.2)),
            Err(error) => versions(program@, *answers) == Err::<(Seq<u8>, Seq<u8>, u32), _>(error@),
        },
{
    let version = query_answer(program, &answers.version)?;
    let numeric = query_answer(program, &answers.numeric_version)?;
    match parse_major_version(numeric.as_slice()) {
        Some(major) => Ok((version, numeric, major)),
        None => Err(
            FingerprintError::CommandFailed {
                program: bstr::copy(program),
                status: "compiler did not report a numeric major version".to_owned(),
            },
        ),
    }
}

/// The target, the name of the specs, the specs and the file of external specs.
pub open spec fn specs_answers(
    program: Seq<u8>,
    cwd: Seq<u8>,
    roots: Seq<Seq<u8>>,
    answers: ToolchainAnswers,
) -> Result<
    (Seq<u8>, Seq<u8>, Seq<u8>, Option<Seq<u8>>),
    Fault,
> {
    match answer_of(program, answers.target) {
        Err(error) => Err(error),
        Ok(target) => match answer_of(program, answers.specs_name) {
            Err(error) => Err(error),
            Ok(name) => match answer_of(program, answers.specs) {
                Err(error) => Err(error),
                Ok(specs) => match specs_of(
                    name,
                    specs_candidates_of(name, cwd, roots),
                    answers.specs_files@,
                ) {
                    None => Err(
                        FingerprintError::MissingToolPath { program: bstr::trimmed(name) },
                    ),
                    Some(path) => Ok((target, name, specs, path)),
                },
            },
        },
    }
}

struct SpecsAnswers {
    target: Vec<u8>,
    name: Vec<u8>,
    specs: Vec<u8>,
    path: Option<Vec<u8>>,
}

fn read_specs(
    program: &[u8],
    cwd: &[u8],
    roots: &Vec<Vec<u8>>,
    answers: &ToolchainAnswers,
) -> (outcome: Result<SpecsAnswers, FingerprintError>)
    ensures
        match outcome {
            Ok(found) => specs_answers(program@, cwd@, bstr::views(roots@), *answers) == Ok::<_, Fault>((found.target@, found.name@, found.specs@, bstr::opt_view(found.path))),
            Err(error) => specs_answers(program@, cwd@, bstr::views(roots@), *answers) == Err::<
                (Seq<u8>, Seq<u8>, Seq<u8>, Option<Seq<u8>>),
                _,
            >(error@),
        },
{
    let target = query_answer(program, &answers.target)?;
    let name = query_answer(program, &answers.specs_name)?;
    let specs = query_answer(program, &answers.specs)?;
    let candidates = specs_candidates(name.as_slice(), cwd, roots);
    match resolve_specs_path(name.as_slice(), &candidates, &answers.specs_files) {
        Some(path) => Ok(SpecsAnswers { target, name, specs, path }),
        None => Err(
            FingerprintError::MissingToolPath {
                program: bstr::copy(bstr::trim_ascii(name.as_slice())),
            },
        ),
    }
}

/// A digest of a tool.
pub open spec fn digest_of_tool(tool: Tool) -> ToolDigest<Seq<u8>, Seq<u8>> {
    ToolDigest { path: tool.path, digest: digest::blake3_digest(tool.contents) }
}

/// The external specs and their contents, where there are external specs.
pub open spec fn specs_tool(path: Option<Seq<u8>>, reading: ToolReading) -> Result<
    Option<Tool>,
    Fault,
> {
    match path {
        None => Ok(None),
        Some(found) => match tool_contents(found, reading) {
            Err(error) => Err(error),
            Ok(contents) => Ok(Some(Tool { path: found, contents })),
        },
    }
}

/// The toolchain with its fingerprint, from the contents of its tools.
pub open spec fn toolchain_of(
    description: Described,
    answers: ToolchainAnswers,
    driver: Tool,
    f951: Tool,
    assembler: Tool,
    specs: Option<Tool>,
) -> Toolchain {
    let witness = specs_witness(
        bstr::opt_view(answers.specs_canonical),
        description.roots,
        answers.specs_states@,
    );
    Toolchain {
        fingerprint: CompilerFingerprint {
            digest: digest::blake3_digest(
                framing::sized_all(
                    fingerprint_fields(driver, f951, assembler, specs, description.outputs),
                ),
            ),
            driver: driver.path,
            f951: f951.path,
            assembler: assembler.path,
            major_version: description.major,
        },
        driver_resolution: description.driver,
        f951_resolution: description.f951,
        assembler_resolution: description.assembler,
        specs_path: description.specs,
        specs_absent: witness.absent,
        specs_resolution_complete: witness.complete,
        tool_content_digests: seq![
            digest_of_tool(driver),
            digest_of_tool(f951),
            digest_of_tool(assembler),
        ] + (match specs {
            Some(tool) => seq![digest_of_tool(tool)],
            None => Seq::empty(),
        }),
        query_outputs: description.outputs,
    }
}

/// The toolchain that the answers describe, with the first thing that is amiss.
pub open spec fn observed(context: Context, answers: ToolchainAnswers) -> Result<
    Toolchain,
    Fault,
> {
    match described(context, answers) {
        Err(error) => Err(error),
        Ok(description) => {
            let driver = description.driver.selected;
            let f951 = description.f951.selected;
            let assembler = description.assembler.selected;
            match tool_contents(driver, answers.driver_reading) {
                Err(error) => Err(error),
                Ok(driver_contents) => match tool_contents(f951, answers.f951.reading) {
                    Err(error) => Err(error),
                    Ok(f951_contents) => match tool_contents(
                        assembler,
                        answers.assembler.reading,
                    ) {
                        Err(error) => Err(error),
                        Ok(assembler_contents) => match specs_tool(
                            description.specs,
                            answers.specs_reading,
                        ) {
                            Err(error) => Err(error),
                            Ok(specs) => Ok(
                                toolchain_of(
                                    description,
                                    answers,
                                    Tool { path: driver, contents: driver_contents },
                                    Tool { path: f951, contents: f951_contents },
                                    Tool { path: assembler, contents: assembler_contents },
                                    specs,
                                ),
                            ),
                        },
                    },
                },
            }
        },
    }
}

/// The digest of a toolchain: each tool by its path and its contents.
pub fn fingerprint_digest(
    driver: (&[u8], &[u8]),
    f951: (&[u8], &[u8]),
    assembler: (&[u8], &[u8]),
    specs: Option<(&[u8], &[u8])>,
    outputs: &QueryOutputs,
) -> (result: [u8; 32])
    ensures
        result@ == digest::blake3_digest(
            framing::sized_all(
                fingerprint_fields(
                    Tool { path: driver.0@, contents: driver.1@ },
                    Tool { path: f951.0@, contents: f951.1@ },
                    Tool { path: assembler.0@, contents: assembler.1@ },
                    match specs {
                        Some(tool) => Some(Tool { path: tool.0@, contents: tool.1@ }),
                        None => None,
                    },
                    outputs@,
                ),
            ),
        ),
{
    let mut writer = SizedWriter::new();
    writer.write(bstr::of("fcache-gfortran-fingerprint-v2"));
    writer.write(driver.0);
    writer.write(driver.1);
    writer.write(outputs.f951.as_slice());
    writer.write(f951.0);
    writer.write(f951.1);
    writer.write(outputs.assembler.as_slice());
    writer.write(assembler.0);
    writer.write(assembler.1);
    writer.write(outputs.version.as_slice());
    writer.write(outputs.numeric_version.as_slice());
    writer.write(outputs.target.as_slice());
    writer.write(outputs.search_dirs.as_slice());
    writer.write(outputs.specs_name.as_slice());
    match specs {
        Some(tool) => {
            writer.write(bstr::of("external-specs"));
            writer.write(tool.0);
            writer.write(tool.1);
        },
        None => {
            writer.write(bstr::of("built-in-specs"));
        },
    }
    writer.write(outputs.specs.as_slice());
    proof {
        assert(writer.items@ =~= fingerprint_fields(
            Tool { path: driver.0@, contents: driver.1@ },
            Tool { path: f951.0@, contents: f951.1@ },
            Tool { path: assembler.0@, contents: assembler.1@ },
            match specs {
                Some(tool) => Some(Tool { path: tool.0@, contents: tool.1@ }),
                None => None,
            },
            outputs@,
        ));
    }
    digest::hash(writer.bytes.as_slice())
}

/// What the driver says of itself, and where its tools are.
struct Description {
    driver: ResolutionObservation,
    f951: ResolutionObservation,
    assembler: ResolutionObservation,
    major: u32,
    roots: Vec<Vec<u8>>,
    specs: Option<Vec<u8>>,
    outputs: QueryOutputs,
}

impl View for Description {
    type V = Described;

    closed spec fn view(&self) -> Described {
        Described {
            driver: self.driver@,
            f951: self.f951@,
            assembler: self.assembler@,
            major: self.major,
            roots: bstr::views(self.roots@),
            specs: bstr::opt_view(self.specs),
            outputs: self.outputs@,
        }
    }
}

fn describe(context: &FingerprintContext, answers: &ToolchainAnswers) -> (outcome: Result<
    Description,
    FingerprintError,
>)
    ensures
        match outcome {
            Ok(description) => described(context@, *answers) == Ok::<_, Fault>(description@),
            Err(error) => described(context@, *answers) == Err::<Described, _>(error@),
        },
{
    let driver = resolve_driver(context, answers)?;
    let program = driver.selected.as_slice();
    let search_dirs = query_answer(program, &answers.search_dirs)?;
    let roots = parse_program_search_dirs(search_dirs.as_slice(), context.cwd.as_slice());
    let (f951, f951_output) = tool_path(program, context, &roots, &answers.f951)?;
    let (assembler, assembler_output) = tool_path(program, context, &roots, &answers.assembler)?;
    let (version, numeric_version, major) = read_versions(program, answers)?;
    let found = read_specs(program, context.cwd.as_slice(), &roots, answers)?;
    let outputs = QueryOutputs {
        f951: f951_output,
        assembler: assembler_output,
        version,
        numeric_version,
        target: found.target,
        search_dirs,
        specs_name: found.name,
        specs: found.specs,
    };
    Ok(Description { driver, f951, assembler, major, roots, specs: found.path, outputs })
}

/// The toolchain that the answers describe: its tools, its fingerprint and all that led to it.
pub fn observe_gfortran(context: &FingerprintContext, answers: &ToolchainAnswers) -> (outcome:
    Result<FingerprintObservation, FingerprintError>)
    ensures
        match outcome {
            Ok(observation) => observed(context@, *answers) == Ok::<_, Fault>(observation@),
            Err(error) => observed(context@, *answers) == Err::<Toolchain, _>(error@),
        },
{
    let description = describe(context, answers)?;
    let driver = bstr::copy(description.driver.selected.as_slice());
    let f951 = bstr::copy(description.f951.selected.as_slice());
    let assembler = bstr::copy(description.assembler.selected.as_slice());
    let driver_contents = read_tool(driver.as_slice(), &answers.driver_reading)?;
    let f951_contents = read_tool(f951.as_slice(), &answers.f951.reading)?;
    let assembler_contents = read_tool(assembler.as_slice(), &answers.assembler.reading)?;
    let mut tool_content_digests: Vec<ToolDigest> = Vec::new();
    tool_content_digests.push(
        ToolDigest {
            path: bstr::copy(driver.as_slice()),
            digest: digest::hash(driver_contents.as_slice()),
        },
    );
    tool_content_digests.push(
        ToolDigest {
            path: bstr::copy(f951.as_slice()),
            digest: digest::hash(f951_contents.as_slice()),
        },
    );
    tool_content_digests.push(
        ToolDigest {
            path: bstr::copy(assembler.as_slice()),
            digest: digest::hash(assembler_contents.as_slice()),
        },
    );
    let specs: Option<(&[u8], &[u8])> = match &description.specs {
        Some(path) => {
            let contents = read_tool(path.as_slice(), &answers.specs_reading)?;
            tool_content_digests.push(
                ToolDigest {
                    path: bstr::copy(path.as_slice()),
                    digest: digest::hash(contents.as_slice()),
                },
            );
            Some((path.as_slice(), contents.as_slice()))
        },
        None => None,
    };
    let digest = fingerprint_digest(
        (driver.as_slice(), driver_contents.as_slice()),
        (f951.as_slice(), f951_contents.as_slice()),
        (assembler.as_slice(), assembler_contents.as_slice()),
        specs,
        &description.outputs,
    );
    let (specs_absent, specs_resolution_complete) = specs_resolution_witnesses(
        &answers.specs_canonical,
        &description.roots,
        &answers.specs_states,
    );
    let ghost tools = tool_views(tool_content_digests@);
    let ghost contents = match specs {
        Some(tool) => Some(Tool { path: tool.0@, contents: tool.1@ }),
        None => None,
    };
    let ghost expected = toolchain_of(
        description@,
        *answers,
        Tool { path: driver@, contents: driver_contents@ },
        Tool { path: f951@, contents: f951_contents@ },
        Tool { path: assembler@, contents: assembler_contents@ },
        contents,
    );
    assert(tools =~= expected.tool_content_digests);
    let fingerprint = CompilerFingerprint {
        digest,
        driver,
        f951,
        assembler,
        major_version: description.major,
    };
    let observation = FingerprintObservation {
        fingerprint,
        driver_resolution: description.driver,
        f951_resolution: description.f951,
        assembler_resolution: description.assembler,
        specs_path: description.specs,
        specs_absent,
        specs_resolution_complete,
        tool_content_digests,
        query_outputs: description.outputs,
    };
    assert(observation@ =~= expected);
    Ok(observation)
}

/// The fingerprint of the toolchain that the answers describe.
pub fn fingerprint_gfortran_in(context: &FingerprintContext, answers: &ToolchainAnswers) -> (outcome:
    Result<CompilerFingerprint, FingerprintError>)
    ensures
        match outcome {
            Ok(fingerprint) => observed(context@, *answers) is Ok && observed(
                context@,
                *answers,
            )->Ok_0.fingerprint == fingerprint@,
            Err(error) => observed(context@, *answers) == Err::<Toolchain, _>(error@),
        },
{
    let observation = observe_gfortran(context, answers)?;
    Ok(observation.fingerprint)
}

/// A fingerprint covers every tool and every answer: what is hashed for two toolchains differs
/// unless all their tools, by path and contents, and all their answers are the same.
pub proof fn law_fingerprint_covers_the_toolchain(
    driver: Tool,
    f951: Tool,
    assembler: Tool,
    specs: Option<Tool>,
    outputs: QueryOutputs<Seq<u8>>,
    other_driver: Tool,
    other_f951: Tool,
    other_assembler: Tool,
    other_specs: Option<Tool>,
    other_outputs: QueryOutputs<Seq<u8>>,
)
    requires
        forall|at: int|
            0 <= at < fingerprint_fields(driver, f951, assembler, specs, outputs).len()
                ==> framing::fits(
                #[trigger] fingerprint_fields(driver, f951, assembler, specs, outputs)[at],
            ),
        forall|at: int|
            0 <= at < fingerprint_fields(
                other_driver,
                other_f951,
                other_assembler,
                other_specs,
                other_outputs,
            ).len() ==> framing::fits(
                #[trigger] fingerprint_fields(
                    other_driver,
                    other_f951,
                    other_assembler,
                    other_specs,
                    other_outputs,
                )[at],
            ),
        framing::sized_all(fingerprint_fields(driver, f951, assembler, specs, outputs))
            == framing::sized_all(
            fingerprint_fields(
                other_driver,
                other_f951,
                other_assembler,
                other_specs,
                other_outputs,
            ),
        ),
    ensures
        driver == other_driver,
        f951 == other_f951,
        assembler == other_assembler,
        specs == other_specs,
        outputs == other_outputs,
{
    let left = fingerprint_fields(driver, f951, assembler, specs, outputs);
    let right = fingerprint_fields(
        other_driver,
        other_f951,
        other_assembler,
        other_specs,
        other_outputs,
    );
    framing::law_sized_all_injective(left, right);
    assert(left.len() == right.len());
    assert(specs is Some == other_specs is Some);
    assert(left[1] == right[1] && left[2] == right[2] && left[3] == right[3]);
    assert(left[4] == right[4] && left[5] == right[5] && left[6] == right[6]);
    assert(left[7] == right[7] && left[8] == right[8] && left[9] == right[9]);
    assert(left[10] == right[10] && left[11] == right[11] && left[12] == right[12]);
    assert(left[13] == right[13]);
    assert(left.last() == right.last());
    if specs is Some {
        assert(left[15] == right[15] && left[16] == right[16]);
    }
}

proof fn lemma_leading_digits(digits: Seq<u8>, rest: Seq<u8>)
    requires
        decimal::all_digits(digits),
        rest.len() == 0 || !bstr::is_digit(rest[0]),
    ensures
        leading_digits(digits + rest) == digits.len(),
    decreases digits.len(),
{
    let text = digits + rest;
    if digits.len() == 0 {
        assert(text =~= rest);
    } else {
        let fewer = digits.skip(1);
        assert(bstr::is_digit(digits[0]));
        assert forall|at: int| 0 <= at < fewer.len() implies bstr::is_digit(
            #[trigger] fewer[at],
        ) by {
            assert(bstr::is_digit(digits[at + 1]));
        }
        lemma_leading_digits(fewer, rest);
        assert(text.skip(1) =~= fewer + rest);
    }
}

proof fn lemma_trimmed_behind(first: Seq<u8>, second: Seq<u8>) -> (kept: int)
    requires
        first.len() > 0,
        !bstr::is_space(first.last()),
    ensures
        0 <= kept <= second.len(),
        bstr::trimmed_end(first + second) == first + second.take(kept),
    decreases second.len(),
{
    let text = first + second;
    if second.len() == 0 {
        assert(text =~= first);
        assert(second.take(0) =~= second);
        0
    } else if bstr::is_space(second.last()) {
        assert(text.drop_last() =~= first + second.drop_last());
        let kept = lemma_trimmed_behind(first, second.drop_last());
        assert(second.drop_last().take(kept) =~= second.take(kept));
        kept
    } else {
        assert(text.last() == second.last());
        assert(second.take(second.len() as int) =~= second);
        second.len() as int
    }
}

/// The major version is the number with which the version starts, whatever follows it, and there is
/// none where it does not start with a digit.
pub proof fn law_major_versions(major: nat, rest: Seq<u8>)
    requires
        rest.len() == 0 || !(0x30 <= rest[0] <= 0x39),
    ensures
        major <= u32::MAX ==> major_of(decimal::digits(major) + rest) == Some(major),
        major > u32::MAX ==> major_of(decimal::digits(major) + rest) is None,
        rest.len() > 0 && rest[0] > 0x20 ==> major_of(rest) is None,
{
    let digits = decimal::digits(major);
    let text = digits + rest;
    decimal::lemma_digits(major);
    decimal::law_digits_stand_for_their_number(major, 0);
    assert(bstr::is_digit(digits[0]) && bstr::is_digit(digits[digits.len() - 1]));
    assert(text[0] == digits[0]);
    assert(bstr::trimmed_start(text) == text);
    let kept = lemma_trimmed_behind(digits, rest);
    let tail = rest.take(kept);
    assert(tail.len() > 0 ==> tail[0] == rest[0]);
    lemma_leading_digits(digits, tail);
    assert((digits + tail).take(digits.len() as int) =~= digits);
    if rest.len() > 0 && rest[0] > 0x20 {
        assert(bstr::trimmed_start(rest) == rest);
        let lead = seq![rest[0]];
        let behind = rest.skip(1);
        assert(rest =~= lead + behind);
        let more = lemma_trimmed_behind(lead, behind);
        let word = lead + behind.take(more);
        assert(word[0] == rest[0]);
        assert(leading_digits(word) == 0);
        assert(word.take(0) =~= Seq::empty());
    }
}

/// Of several values of a variable the last one counts.
pub proof fn law_the_last_value_counts(environment: Seq<Pair<Seq<u8>>>, name: Seq<u8>, at: int)
    requires
        0 <= at < environment.len(),
        environment[at].name == name,
        forall|later: int|
            at < later < environment.len() ==> (#[trigger] environment[later]).name != name,
    ensures
        last_value(environment, name) == Some(environment[at].value),
    decreases environment.len(),
{
    if at < environment.len() - 1 {
        let shorter = environment.drop_last();
        assert(environment[environment.len() - 1].name != name);
        assert forall|later: int| at < later < shorter.len() implies (
        #[trigger] shorter[later]).name != name by {
            assert(shorter[later] == environment[later]);
        }
        law_the_last_value_counts(shorter, name, at);
    }
}

/// A program that is named by a path is that file alone. Another one is looked for below the
/// directories of the compiler first, and then below those of `PATH`, in order; an empty entry of
/// `PATH` stands for the working directory.
pub proof fn law_where_programs_are_looked_for(
    program: Seq<u8>,
    cwd: Seq<u8>,
    directories: Seq<Seq<u8>>,
    roots: Seq<Seq<u8>>,
    at: int,
)
    requires
        directories.len() > 0,
        forall|part: int, index: int|
            0 <= part < directories.len() && 0 <= index < directories[part].len()
                ==> #[trigger] directories[part][index] != 0x3a,
    ensures
        ({
            let path = bstr::joined(directories, 0x3a);
            let listed = candidates_of(program, cwd, Some(path), roots);
            &&& upath::components_of(program).len() > 1 ==> listed == seq![
                upath::joined(cwd, program),
            ]
            &&& upath::components_of(program).len() <= 1 ==> {
                &&& listed.len() == roots.len() + directories.len()
                &&& 0 <= at < roots.len() ==> listed[at] == upath::joined(roots[at], program)
                &&& 0 <= at < directories.len() ==> listed[roots.len() + at] == upath::joined(
                    if directories[at].len() == 0 {
                        cwd
                    } else {
                        upath::joined(cwd, directories[at])
                    },
                    program,
                )
            }
        }),
{
    bstr::law_pieces_are_the_joined_parts(directories, 0x3a);
}

proof fn lemma_selection(
    candidates: Seq<Seq<u8>>,
    states: Seq<CandidateState>,
    index: int,
    place: int,
)
    requires
        0 <= index <= place < candidates.len(),
        place < states.len(),
        states[place] is File,
        forall|at: int| index <= at < place ==> #[trigger] states[at] is Absent,
    ensures
        selection(candidates, states, index) == Some(
            (Resolution { selected: candidates[place], earlier_absent: candidates.take(place) }),
        ),
    decreases place - index,
{
    if index < place {
        assert(states[index] is Absent);
        lemma_selection(candidates, states, index + 1, place);
    }
}

proof fn lemma_selected(candidates: Seq<Seq<u8>>, states: Seq<CandidateState>, index: int)
    requires
        0 <= index,
        selection(candidates, states, index) is Some,
    ensures
        exists|place: int|
            index <= place < candidates.len() && place < states.len() && (
            #[trigger] states[place]) is File && (forall|at: int|
                index <= at < place ==> #[trigger] states[at] is Absent),
    decreases candidates.len() - index,
{
    if state_at(states, index) is File {
        assert(states[index] is File);
    } else {
        lemma_selected(candidates, states, index + 1);
        let place = choose|place: int|
            index + 1 <= place < candidates.len() && place < states.len() && (
            #[trigger] states[place]) is File && (forall|at: int|
                index + 1 <= at < place ==> #[trigger] states[at] is Absent);
        assert(states[index] is Absent);
        assert forall|at: int| index <= at < place implies #[trigger] states[at] is Absent by {
            if at > index {
                assert(index + 1 <= at);
            }
        }
        assert(states[place] is File);
    }
}

/// The program that is found is the first candidate that is a file, where everything before it is
/// absent; these are the paths that have to stay absent. Where something else stands before it
/// nothing is found.
pub proof fn law_the_first_file_is_found(
    program: Seq<u8>,
    candidates: Seq<Seq<u8>>,
    states: Seq<CandidateState>,
    place: int,
)
    requires
        !is_located(program),
    ensures
        0 <= place < candidates.len() && place < states.len() && states[place] is File && (forall|
            at: int,
        |
            0 <= at < place ==> #[trigger] states[at] is Absent) ==> resolution_of(
            program,
            candidates,
            states,
        ) == Some(
            (Resolution { selected: candidates[place], earlier_absent: candidates.take(place) }),
        ),
        resolution_of(program, candidates, states) is Some ==> exists|first: int|
            0 <= first < candidates.len() && first < states.len() && (
            #[trigger] states[first]) is File && (forall|at: int|
                0 <= at < first ==> #[trigger] states[at] is Absent),
{
    if 0 <= place < candidates.len() && place < states.len() && states[place] is File && (forall|
        at: int,
    |
        0 <= at < place ==> #[trigger] states[at] is Absent) {
        lemma_selection(candidates, states, 0, place);
    }
    if resolution_of(program, candidates, states) is Some {
        lemma_selected(candidates, states, 0);
    }
}

/// An answer of the compiler is what it wrote to its standard output, and behind a mark what it
/// wrote to its standard error. More than four megabytes are refused, and so is a run that failed.
pub proof fn law_answers(program: Seq<u8>, run: QueryRun)
    ensures
        answer_of(program, run) is Ok <==> run is Answered && run->stdout@.len() + run->stderr@.len()
            + 8 <= 4 * 1024 * 1024,
        answer_of(program, run) matches Ok(answer) ==> answer == (if run->stderr@.len() == 0 {
            run->stdout@
        } else {
            run->stdout@ + bstr::utf8("\0stderr\0"@) + run->stderr@
        }),
{
}

/// A tool is read where its metadata is the same before and after, and its size that of its
/// contents.
pub proof fn law_tools_are_read_whole(path: Seq<u8>, reading: ToolReading)
    ensures
        tool_contents(path, reading) is Ok <==> {
            &&& reading.before is Ok && reading.contents is Ok && reading.after is Ok
            &&& reading.before->Ok_0 == reading.after->Ok_0
            &&& reading.contents->Ok_0@.len() == reading.before->Ok_0.size
        },
        tool_contents(path, reading) matches Ok(contents) ==> contents == reading.contents->Ok_0@,
{
}

proof fn lemma_line_after(lines: Seq<Seq<u8>>, prefix: Seq<u8>, index: int, at: int)
    requires
        0 <= index <= at < lines.len(),
        bstr::has_prefix(lines[at], prefix),
        forall|earlier: int|
            index <= earlier < at ==> !bstr::has_prefix(#[trigger] lines[earlier], prefix),
    ensures
        line_after(lines, prefix, index) == Some(lines[at].skip(prefix.len() as int)),
    decreases at - index,
{
    if index < at {
        assert(!bstr::has_prefix(lines[index], prefix));
        lemma_line_after(lines, prefix, index + 1, at);
    }
}

/// The directories of the compiler are those of the first line that starts with `programs: =`, in
/// order, seen from the working directory. Empty entries say nothing.
pub proof fn law_directories_of_the_compiler(
    lines: Seq<Seq<u8>>,
    at: int,
    directories: Seq<Seq<u8>>,
    cwd: Seq<u8>,
)
    requires
        0 <= at < lines.len(),
        directories.len() > 0,
        lines[at] == bstr::utf8("programs: ="@) + bstr::joined(directories, 0x3a),
        forall|earlier: int|
            0 <= earlier < at ==> !bstr::has_prefix(
                #[trigger] lines[earlier],
                bstr::utf8("programs: ="@),
            ),
        forall|line: int, index: int|
            0 <= line < lines.len() && 0 <= index < lines[line].len() ==> #[trigger] lines[line][index]
                != 0x0a && lines[line][index] != 0,
        forall|part: int, index: int|
            0 <= part < directories.len() && 0 <= index < directories[part].len()
                ==> #[trigger] directories[part][index] != 0x3a,
    ensures
        program_roots(bstr::joined(lines, 0x0a), cwd) == directories.filter(
            |directory: Seq<u8>| directory.len() > 0,
        ).map_values(|directory: Seq<u8>| upath::joined(cwd, directory)),
{
    let printed = bstr::joined(lines, 0x0a);
    let prefix = bstr::utf8("programs: ="@);
    lemma_joined_without(lines, 0x0a, 0);
    bstr::lemma_first(printed, 0, printed.len() as int);
    assert(printed.take(printed.len() as int) =~= printed);
    bstr::law_pieces_are_the_joined_parts(lines, 0x0a);
    assert(lines[at].take(prefix.len() as int) =~= prefix);
    lemma_line_after(lines, prefix, 0, at);
    assert(lines[at].skip(prefix.len() as int) =~= bstr::joined(directories, 0x3a));
    bstr::law_pieces_are_the_joined_parts(directories, 0x3a);
    lemma_named_directories(directories, cwd);
}

proof fn lemma_joined_without(parts: Seq<Seq<u8>>, byte: u8, other: u8)
    requires
        byte != other,
        forall|part: int, at: int|
            0 <= part < parts.len() && 0 <= at < parts[part].len() ==> #[trigger] parts[part][at]
                != byte && parts[part][at] != other,
    ensures
        forall|at: int|
            0 <= at < bstr::joined(parts, byte).len() ==> bstr::joined(parts, byte)[at] != other,
    decreases parts.len(),
{
    let text = bstr::joined(parts, byte);
    if parts.len() == 1 {
        assert forall|at: int| 0 <= at < text.len() implies text[at] != other by {
            assert(parts[0][at] != other);
        }
    } else if parts.len() > 1 {
        let rest = parts.skip(1);
        assert forall|part: int, at: int|
            0 <= part < rest.len() && 0 <= at < rest[part].len() implies #[trigger] rest[part][at]
            != byte && rest[part][at] != other by {
            assert(parts[part + 1][at] != byte);
        }
        lemma_joined_without(rest, byte, other);
        let lead = parts[0].len() as int;
        assert forall|at: int| 0 <= at < text.len() implies text[at] != other by {
            if at < lead {
                assert(text[at] == parts[0][at]);
            } else if at > lead {
                assert(text[at] == bstr::joined(rest, byte)[at - lead - 1]);
            }
        }
    }
}

proof fn lemma_named_directories(list: Seq<Seq<u8>>, cwd: Seq<u8>)
    ensures
        named_directories(list, cwd) == list.filter(
            |directory: Seq<u8>| directory.len() > 0,
        ).map_values(|directory: Seq<u8>| upath::joined(cwd, directory)),
    decreases list.len(),
{
    reveal(Seq::filter);
    if list.len() > 0 {
        lemma_named_directories(list.drop_last(), cwd);
    }
    assert(named_directories(list, cwd) =~= list.filter(
        |directory: Seq<u8>| directory.len() > 0,
    ).map_values(|directory: Seq<u8>| upath::joined(cwd, directory)));
}

} // verus!
