//! Command-line argument parsing for the analyzer's subcommands.
use vstd::prelude::*;
use crate::text::{ascii_lower_code, lowercase_eq, lowercase_is, parse_usize, parsed_usize, str_eq};

verus! {

/// The file format of a tabular export.
#[derive(Clone, Copy, Debug, PartialEq, Eq, Structural)]
pub enum ExportFormat {
    Csv,
    Parquet,
}

/// Which device computes time-on-field sums; `Cpu` is the default.
#[derive(Clone, Copy, Debug, PartialEq, Eq, Structural)]
pub enum GpuMode {
    Cpu,
    Auto,
    Rocm,
    Cuda,
}

/// The subcommand whose flags are being read.
#[derive(Clone, Copy, Debug, PartialEq, Eq, Structural)]
pub enum Command {
    Parse,
    Frames,
    Stats,
    Index,
    MatchGuid,
    MatchGuids,
}

/// A flag that a subcommand cannot run without.
#[derive(Clone, Copy, Debug, PartialEq, Eq, Structural)]
pub enum RequiredFlag {
    Replays,
    OutPbp,
    OutFrames,
    OutStats,
    OutAnalysis,
    MatchGuid,
    MatchGuids,
}

/// Why a list of arguments was refused.
#[derive(Clone, Debug, PartialEq, Eq)]
pub enum ArgsError {
    /// A flag that takes a value came last.
    MissingValue,
    /// An argument that is not a flag of the subcommand.
    UnknownFlag { command: Command, flag: String },
    /// A required flag never appeared.
    Missing(RequiredFlag),
    /// A `--workers` or `--limit` value that is not a `usize`.
    InvalidNumber,
    /// A format that is neither `csv` nor `parquet`.
    InvalidExportFormat,
    /// A `--rotation-events` value that is not a boolean word.
    InvalidBool,
    /// A `--gpu` value that names no known device.
    InvalidGpu,
    /// `--export-meta` without both `--out-analysis` and `--out-players`.
    MetaExportOutputs,
    /// `--export-network` without all of `--out-frames`, `--out-actors` and
    /// `--out-attributes`.
    NetworkExportOutputs,
}

/// The meaning of one argument in flag position.
#[derive(Clone, Copy, Debug, PartialEq, Eq, Structural)]
pub enum FlagAction {
    Replays,
    OutJson,
    OutAnalysis,
    OutPlayers,
    OutPbp,
    OutFrames,
    OutActors,
    OutAttributes,
    OutStats,
    MatchGuid,
    MatchGuids,
    Workers,
    Limit,
    Format,
    PbpFormat,
    FramesFormat,
    StatsFormat,
    Gpu,
    RotationEvents,
    NoRotationEvents,
    ExportMeta,
    ExportNetwork,
    Force,
    ParseOnly,
    FramesOnly,
    NoWrite,
    Unknown,
}

/// The flag that a text names, whatever the subcommand.
pub open spec fn flag_named(s: Seq<char>) -> FlagAction {
    if s == "--replays"@ {
        FlagAction::Replays
    } else if s == "--out-json"@ {
        FlagAction::OutJson
    } else if s == "--out-analysis"@ {
        FlagAction::OutAnalysis
    } else if s == "--out-players"@ {
        FlagAction::OutPlayers
    } else if s == "--out-pbp"@ {
        FlagAction::OutPbp
    } else if s == "--out-frames"@ {
        FlagAction::OutFrames
    } else if s == "--out-actors"@ {
        FlagAction::OutActors
    } else if s == "--out-attributes"@ {
        FlagAction::OutAttributes
    } else if s == "--out-stats"@ {
        FlagAction::OutStats
    } else if s == "--match-guid"@ {
        FlagAction::MatchGuid
    } else if s == "--match-guids"@ {
        FlagAction::MatchGuids
    } else if s == "--workers"@ {
        FlagAction::Workers
    } else if s == "--limit"@ {
        FlagAction::Limit
    } else if s == "--format"@ {
        FlagAction::Format
    } else if s == "--pbp-format"@ {
        FlagAction::PbpFormat
    } else if s == "--frames-format"@ {
        FlagAction::FramesFormat
    } else if s == "--stats-format"@ {
        FlagAction::StatsFormat
    } else if s == "--gpu"@ {
        FlagAction::Gpu
    } else if s == "--rotation-events"@ {
        FlagAction::RotationEvents
    } else if s == "--no-rotation-events"@ {
        FlagAction::NoRotationEvents
    } else if s == "--export-meta"@ {
        FlagAction::ExportMeta
    } else if s == "--export-network"@ {
        FlagAction::ExportNetwork
    } else if s == "--force"@ {
        FlagAction::Force
    } else if s == "--parse-only"@ {
        FlagAction::ParseOnly
    } else if s == "--frames-only"@ {
        FlagAction::FramesOnly
    } else if s == "--no-write"@ {
        FlagAction::NoWrite
    } else {
        FlagAction::Unknown
    }
}

/// Which flags each subcommand takes.
pub open spec fn accepts(cmd: Command, a: FlagAction) -> bool {
    match a {
        FlagAction::Replays => true,
        FlagAction::OutJson | FlagAction::OutPlayers | FlagAction::OutPbp | FlagAction::OutActors
        | FlagAction::OutAttributes | FlagAction::PbpFormat | FlagAction::ExportMeta
        | FlagAction::ExportNetwork => cmd == Command::Parse || cmd == Command::MatchGuid || cmd
            == Command::MatchGuids,
        FlagAction::OutAnalysis => cmd == Command::Parse || cmd == Command::Index || cmd
            == Command::MatchGuid || cmd == Command::MatchGuids,
        FlagAction::OutFrames => cmd == Command::Parse || cmd == Command::Frames || cmd
            == Command::MatchGuid || cmd == Command::MatchGuids,
        FlagAction::OutStats | FlagAction::StatsFormat => cmd == Command::Stats,
        FlagAction::MatchGuid => cmd == Command::MatchGuid,
        FlagAction::MatchGuids => cmd == Command::MatchGuids,
        FlagAction::Workers => cmd == Command::Parse || cmd == Command::Frames || cmd
            == Command::Stats || cmd == Command::Index,
        FlagAction::Limit | FlagAction::Gpu | FlagAction::Force => cmd == Command::Parse || cmd
            == Command::Frames || cmd == Command::Stats,
        FlagAction::Format => cmd != Command::Index,
        FlagAction::FramesFormat | FlagAction::ParseOnly | FlagAction::FramesOnly
        | FlagAction::NoWrite => cmd == Command::Frames,
        FlagAction::RotationEvents | FlagAction::NoRotationEvents => cmd == Command::Parse || cmd
            == Command::Frames,
        FlagAction::Unknown => false,
    }
}

/// The meaning of an argument in flag position for a subcommand.
pub open spec fn flag_action(cmd: Command, s: Seq<char>) -> FlagAction {
    let a = flag_named(s);
    if accepts(cmd, a) {
        a
    } else {
        FlagAction::Unknown
    }
}

/// Whether a flag reads the argument that follows it.
pub open spec fn takes_value(a: FlagAction) -> bool {
    match a {
        FlagAction::NoRotationEvents | FlagAction::ExportMeta | FlagAction::ExportNetwork
        | FlagAction::Force | FlagAction::ParseOnly | FlagAction::FramesOnly | FlagAction::NoWrite
        | FlagAction::Unknown => false,
        _ => true,
    }
}

/// What an export-format value names, compared without ASCII case.
pub open spec fn export_format_named(v: Seq<char>) -> Option<ExportFormat> {
    if lowercase_is(v, "csv"@) {
        Some(ExportFormat::Csv)
    } else if lowercase_is(v, "parquet"@) {
        Some(ExportFormat::Parquet)
    } else {
        None
    }
}

/// What a boolean flag value names, compared without ASCII case.
pub open spec fn bool_named(v: Seq<char>) -> Option<bool> {
    if lowercase_is(v, "true"@) || lowercase_is(v, "1"@) || lowercase_is(v, "yes"@)
        || lowercase_is(v, "y"@) || lowercase_is(v, "on"@) {
        Some(true)
    } else if lowercase_is(v, "false"@) || lowercase_is(v, "0"@) || lowercase_is(v, "no"@)
        || lowercase_is(v, "n"@) || lowercase_is(v, "off"@) {
        Some(false)
    } else {
        None
    }
}

/// What a `--gpu` value names, compared without ASCII case.
pub open spec fn gpu_named(v: Seq<char>) -> Option<GpuMode> {
    if lowercase_is(v, "cpu"@) {
        Some(GpuMode::Cpu)
    } else if lowercase_is(v, "auto"@) {
        Some(GpuMode::Auto)
    } else if lowercase_is(v, "rocm"@) || lowercase_is(v, "amd"@) || lowercase_is(v, "radeon"@) {
        Some(GpuMode::Rocm)
    } else if lowercase_is(v, "cuda"@) || lowercase_is(v, "nvidia"@) {
        Some(GpuMode::Cuda)
    } else {
        None
    }
}

/// Why a list of arguments is refused, with texts as character sequences.
pub enum ArgsFailure {
    MissingValue,
    UnknownFlag(Seq<char>),
    Missing(RequiredFlag),
    InvalidNumber,
    InvalidExportFormat,
    InvalidBool,
    InvalidGpu,
}

/// Whether an error value reports a failure for a subcommand.
pub open spec fn error_is(cmd: Command, e: ArgsError, f: ArgsFailure) -> bool {
    match f {
        ArgsFailure::MissingValue => e == ArgsError::MissingValue,
        ArgsFailure::UnknownFlag(s) => e matches ArgsError::UnknownFlag { command, flag }
            && command == cmd && flag@ == s,
        ArgsFailure::Missing(r) => e == ArgsError::Missing(r),
        ArgsFailure::InvalidNumber => e == ArgsError::InvalidNumber,
        ArgsFailure::InvalidExportFormat => e == ArgsError::InvalidExportFormat,
        ArgsFailure::InvalidBool => e == ArgsError::InvalidBool,
        ArgsFailure::InvalidGpu => e == ArgsError::InvalidGpu,
    }
}

/// The flags read so far, with texts as character sequences.
#[verifier::ext_equal]
pub struct FlagValuesView {
    pub replays: Seq<Seq<char>>,
    pub out_json: Option<Seq<char>>,
    pub out_analysis: Option<Seq<char>>,
    pub out_players: Option<Seq<char>>,
    pub out_pbp: Option<Seq<char>>,
    pub out_frames: Option<Seq<char>>,
    pub out_actors: Option<Seq<char>>,
    pub out_attributes: Option<Seq<char>>,
    pub out_stats: Option<Seq<char>>,
    pub match_guid: Option<Seq<char>>,
    pub match_guids: Option<Seq<char>>,
    pub workers: Option<usize>,
    pub limit: Option<usize>,
    pub format: Option<ExportFormat>,
    pub gpu: GpuMode,
    pub rotation_events: bool,
    pub export_meta: bool,
    pub export_network: bool,
    pub force: bool,
    pub parse_only: bool,
    pub frames_only: bool,
    pub no_write: bool,
}

/// Nothing read yet.
pub open spec fn initial_flags() -> FlagValuesView {
    FlagValuesView {
        replays: Seq::empty(),
        out_json: None,
        out_analysis: None,
        out_players: None,
        out_pbp: None,
        out_frames: None,
        out_actors: None,
        out_attributes: None,
        out_stats: None,
        match_guid: None,
        match_guids: None,
        workers: None,
        limit: None,
        format: None,
        gpu: GpuMode::Cpu,
        rotation_events: true,
        export_meta: false,
        export_network: false,
        force: false,
        parse_only: false,
        frames_only: false,
        no_write: false,
    }
}

/// The effect of a flag that takes the value `v`.
pub open spec fn apply_value(a: FlagAction, v: Seq<char>, st: FlagValuesView) -> Result<
    FlagValuesView,
    ArgsFailure,
> {
    match a {
        FlagAction::Replays => Ok(FlagValuesView { replays: st.replays.push(v), ..st }),
        FlagAction::OutJson => Ok(FlagValuesView { out_json: Some(v), ..st }),
        FlagAction::OutAnalysis => Ok(FlagValuesView { out_analysis: Some(v), ..st }),
        FlagAction::OutPlayers => Ok(FlagValuesView { out_players: Some(v), ..st }),
        FlagAction::OutPbp => Ok(FlagValuesView { out_pbp: Some(v), ..st }),
        FlagAction::OutFrames => Ok(FlagValuesView { out_frames: Some(v), ..st }),
        FlagAction::OutActors => Ok(FlagValuesView { out_actors: Some(v), ..st }),
        FlagAction::OutAttributes => Ok(FlagValuesView { out_attributes: Some(v), ..st }),
        FlagAction::OutStats => Ok(FlagValuesView { out_stats: Some(v), ..st }),
        FlagAction::MatchGuid => Ok(FlagValuesView { match_guid: Some(v), ..st }),
        FlagAction::MatchGuids => Ok(FlagValuesView { match_guids: Some(v), ..st }),
        FlagAction::Workers => match parsed_usize(v) {
            Some(n) => Ok(FlagValuesView { workers: Some(n), ..st }),
            None => Err(ArgsFailure::InvalidNumber),
        },
        FlagAction::Limit => match parsed_usize(v) {
            Some(n) => Ok(FlagValuesView { limit: Some(n), ..st }),
            None => Err(ArgsFailure::InvalidNumber),
        },
        FlagAction::Gpu => match gpu_named(v) {
            Some(g) => Ok(FlagValuesView { gpu: g, ..st }),
            None => Err(ArgsFailure::InvalidGpu),
        },
        FlagAction::RotationEvents => match bool_named(v) {
            Some(b) => Ok(FlagValuesView { rotation_events: b, ..st }),
            None => Err(ArgsFailure::InvalidBool),
        },
        _ => match export_format_named(v) {
            Some(f) => Ok(FlagValuesView { format: Some(f), ..st }),
            None => Err(ArgsFailure::InvalidExportFormat),
        },
    }
}

/// The effect of a flag that takes no value.
pub open spec fn apply_switch(a: FlagAction, st: FlagValuesView) -> FlagValuesView {
    match a {
        FlagAction::NoRotationEvents => FlagValuesView { rotation_events: false, ..st },
        FlagAction::ExportMeta => FlagValuesView { export_meta: true, ..st },
        FlagAction::ExportNetwork => FlagValuesView { export_network: true, ..st },
        FlagAction::Force => FlagValuesView { force: true, ..st },
        FlagAction::ParseOnly => FlagValuesView { parse_only: true, ..st },
        FlagAction::FramesOnly => FlagValuesView { frames_only: true, ..st },
        FlagAction::NoWrite => FlagValuesView { no_write: true, ..st },
        _ => st,
    }
}

/// Reads `args` from position `i` on, left to right, starting from `st`.
/// A flag that takes a value consumes the next argument, whatever it is.
pub open spec fn scan_from(
    cmd: Command,
    args: Seq<Seq<char>>,
    i: nat,
    st: FlagValuesView,
) -> Result<FlagValuesView, ArgsFailure>
    decreases args.len() - i,
{
    if i >= args.len() {
        Ok(st)
    } else {
        let a = flag_action(cmd, args[i as int]);
        if a == FlagAction::Unknown {
            Err(ArgsFailure::UnknownFlag(args[i as int]))
        } else if takes_value(a) {
            if i + 1 >= args.len() {
                Err(ArgsFailure::MissingValue)
            } else {
                match apply_value(a, args[(i + 1) as int], st) {
                    Ok(next) => scan_from(cmd, args, i + 2, next),
                    Err(e) => Err(e),
                }
            }
        } else {
            scan_from(cmd, args, i + 1, apply_switch(a, st))
        }
    }
}

/// The first required flag of a subcommand that the read flags lack.
pub open spec fn missing_required(cmd: Command, st: FlagValuesView) -> Option<RequiredFlag> {
    if st.replays.len() == 0 {
        Some(RequiredFlag::Replays)
    } else {
        match cmd {
            Command::Parse => if st.out_pbp is None {
                Some(RequiredFlag::OutPbp)
            } else {
                None
            },
            Command::Frames => if st.out_frames is None {
                Some(RequiredFlag::OutFrames)
            } else {
                None
            },
            Command::Stats => if st.out_stats is None {
                Some(RequiredFlag::OutStats)
            } else {
                None
            },
            Command::Index => if st.out_analysis is None {
                Some(RequiredFlag::OutAnalysis)
            } else {
                None
            },
            Command::MatchGuid => if st.match_guid is None {
                Some(RequiredFlag::MatchGuid)
            } else if st.out_pbp is None {
                Some(RequiredFlag::OutPbp)
            } else {
                None
            },
            Command::MatchGuids => if st.match_guids is None {
                Some(RequiredFlag::MatchGuids)
            } else if st.out_pbp is None {
                Some(RequiredFlag::OutPbp)
            } else {
                None
            },
        }
    }
}

/// The outcome of reading a subcommand's whole argument list.
pub open spec fn args_outcome(cmd: Command, args: Seq<Seq<char>>) -> Result<
    FlagValuesView,
    ArgsFailure,
> {
    match scan_from(cmd, args, 0, initial_flags()) {
        Err(e) => Err(e),
        Ok(st) => match missing_required(cmd, st) {
            Some(r) => Err(ArgsFailure::Missing(r)),
            None => Ok(st),
        },
    }
}

/// The texts of a list of strings.
pub open spec fn texts(v: Seq<String>) -> Seq<Seq<char>> {
    v.map_values(|s: String| s@)
}

/// The text of an optional string.
pub open spec fn opt_text(o: Option<String>) -> Option<Seq<char>> {
    match o {
        Some(s) => Some(s@),
        None => None,
    }
}

struct FlagValues {
    replays: Vec<String>,
    out_json: Option<String>,
    out_analysis: Option<String>,
    out_players: Option<String>,
    out_pbp: Option<String>,
    out_frames: Option<String>,
    out_actors: Option<String>,
    out_attributes: Option<String>,
    out_stats: Option<String>,
    match_guid: Option<String>,
    match_guids: Option<String>,
    workers: Option<usize>,
    limit: Option<usize>,
    format: Option<ExportFormat>,
    gpu: GpuMode,
    rotation_events: bool,
    export_meta: bool,
    export_network: bool,
    force: bool,
    parse_only: bool,
    frames_only: bool,
    no_write: bool,
}

impl View for FlagValues {
    type V = FlagValuesView;

    closed spec fn view(&self) -> FlagValuesView {
        FlagValuesView {
            replays: texts(self.replays@),
            out_json: opt_text(self.out_json),
            out_analysis: opt_text(self.out_analysis),
            out_players: opt_text(self.out_players),
            out_pbp: opt_text(self.out_pbp),
            out_frames: opt_text(self.out_frames),
            out_actors: opt_text(self.out_actors),
            out_attributes: opt_text(self.out_attributes),
            out_stats: opt_text(self.out_stats),
            match_guid: opt_text(self.match_guid),
            match_guids: opt_text(self.match_guids),
            workers: self.workers,
            limit: self.limit,
            format: self.format,
            gpu: self.gpu,
            rotation_events: self.rotation_events,
            export_meta: self.export_meta,
            export_network: self.export_network,
            force: self.force,
            parse_only: self.parse_only,
            frames_only: self.frames_only,
            no_write: self.no_write,
        }
    }
}


fn flag_named_exec(s: &str) -> (res: FlagAction)
    ensures
        res == flag_named(s@),
{
    if str_eq(s, "--replays") {
        FlagAction::Replays
    } else if str_eq(s, "--out-json") {
        FlagAction::OutJson
    } else if str_eq(s, "--out-analysis") {
        FlagAction::OutAnalysis
    } else if str_eq(s, "--out-players") {
        FlagAction::OutPlayers
    } else if str_eq(s, "--out-pbp") {
        FlagAction::OutPbp
    } else if str_eq(s, "--out-frames") {
        FlagAction::OutFrames
    } else if str_eq(s, "--out-actors") {
        FlagAction::OutActors
    } else if str_eq(s, "--out-attributes") {
        FlagAction::OutAttributes
    } else if str_eq(s, "--out-stats") {
        FlagAction::OutStats
    } else if str_eq(s, "--match-guid") {
        FlagAction::MatchGuid
    } else if str_eq(s, "--match-guids") {
        FlagAction::MatchGuids
    } else if str_eq(s, "--workers") {
        FlagAction::Workers
    } else if str_eq(s, "--limit") {
        FlagAction::Limit
    } else if str_eq(s, "--format") {
        FlagAction::Format
    } else if str_eq(s, "--pbp-format") {
        FlagAction::PbpFormat
    } else if str_eq(s, "--frames-format") {
        FlagAction::FramesFormat
    } else if str_eq(s, "--stats-format") {
        FlagAction::StatsFormat
    } else if str_eq(s, "--gpu") {
        FlagAction::Gpu
    } else if str_eq(s, "--rotation-events") {
        FlagAction::RotationEvents
    } else if str_eq(s, "--no-rotation-events") {
        FlagAction::NoRotationEvents
    } else if str_eq(s, "--export-meta") {
        FlagAction::ExportMeta
    } else if str_eq(s, "--export-network") {
        FlagAction::ExportNetwork
    } else if str_eq(s, "--force") {
        FlagAction::Force
    } else if str_eq(s, "--parse-only") {
        FlagAction::ParseOnly
    } else if str_eq(s, "--frames-only") {
        FlagAction::FramesOnly
    } else if str_eq(s, "--no-write") {
        FlagAction::NoWrite
    } else {
        FlagAction::Unknown
    }
}

fn accepts_exec(cmd: Command, a: FlagAction) -> (res: bool)
    ensures
        res == accepts(cmd, a),
{
    match a {
        FlagAction::Replays => true,
        FlagAction::OutJson | FlagAction::OutPlayers | FlagAction::OutPbp | FlagAction::OutActors
        | FlagAction::OutAttributes | FlagAction::PbpFormat | FlagAction::ExportMeta
        | FlagAction::ExportNetwork => match cmd {
            Command::Parse | Command::MatchGuid | Command::MatchGuids => true,
            _ => false,
        },
        FlagAction::OutAnalysis => match cmd {
            Command::Parse | Command::Index | Command::MatchGuid | Command::MatchGuids => true,
            _ => false,
        },
        FlagAction::OutFrames => match cmd {
            Command::Parse | Command::Frames | Command::MatchGuid | Command::MatchGuids => true,
            _ => false,
        },
        FlagAction::OutStats | FlagAction::StatsFormat => match cmd {
            Command::Stats => true,
            _ => false,
        },
        FlagAction::MatchGuid => match cmd {
            Command::MatchGuid => true,
            _ => false,
        },
        FlagAction::MatchGuids => match cmd {
            Command::MatchGuids => true,
            _ => false,
        },
        FlagAction::Workers => match cmd {
            Command::Parse | Command::Frames | Command::Stats | Command::Index => true,
            _ => false,
        },
        FlagAction::Limit | FlagAction::Gpu | FlagAction::Force => match cmd {
            Command::Parse | Command::Frames | Command::Stats => true,
            _ => false,
        },
        FlagAction::Format => match cmd {
            Command::Index => false,
            _ => true,
        },
        FlagAction::FramesFormat | FlagAction::ParseOnly | FlagAction::FramesOnly
        | FlagAction::NoWrite => match cmd {
            Command::Frames => true,
            _ => false,
        },
        FlagAction::RotationEvents | FlagAction::NoRotationEvents => match cmd {
            Command::Parse | Command::Frames => true,
            _ => false,
        },
        FlagAction::Unknown => false,
    }
}

/// The meaning of an argument in flag position for a subcommand.
pub fn flag_action_of(cmd: Command, s: &str) -> (res: FlagAction)
    ensures
        res == flag_action(cmd, s@),
{
    let a = flag_named_exec(s);
    if accepts_exec(cmd, a) {
        a
    } else {
        FlagAction::Unknown
    }
}

fn takes_value_exec(a: FlagAction) -> (res: bool)
    ensures
        res == takes_value(a),
{
    match a {
        FlagAction::NoRotationEvents | FlagAction::ExportMeta | FlagAction::ExportNetwork
        | FlagAction::Force | FlagAction::ParseOnly | FlagAction::FramesOnly | FlagAction::NoWrite
        | FlagAction::Unknown => false,
        _ => true,
    }
}

/// Reads an export format, without regard to ASCII case.
pub fn parse_export_format(value: &str) -> (res: Result<ExportFormat, ArgsError>)
    ensures
        match export_format_named(value@) {
            Some(f) => res == Ok::<ExportFormat, ArgsError>(f),
            None => res == Err::<ExportFormat, ArgsError>(ArgsError::InvalidExportFormat),
        },
{
    if lowercase_eq(value, "csv") {
        Ok(ExportFormat::Csv)
    } else if lowercase_eq(value, "parquet") {
        Ok(ExportFormat::Parquet)
    } else {
        Err(ArgsError::InvalidExportFormat)
    }
}

/// Reads a boolean flag value, without regard to ASCII case.
pub fn parse_bool_value(value: &str) -> (res: Result<bool, ArgsError>)
    ensures
        match bool_named(value@) {
            Some(b) => res == Ok::<bool, ArgsError>(b),
            None => res == Err::<bool, ArgsError>(ArgsError::InvalidBool),
        },
{
    if lowercase_eq(value, "true") || lowercase_eq(value, "1") || lowercase_eq(value, "yes")
        || lowercase_eq(value, "y") || lowercase_eq(value, "on") {
        Ok(true)
    } else if lowercase_eq(value, "false") || lowercase_eq(value, "0") || lowercase_eq(value, "no")
        || lowercase_eq(value, "n") || lowercase_eq(value, "off") {
        Ok(false)
    } else {
        Err(ArgsError::InvalidBool)
    }
}

/// Reads a `--gpu` value, without regard to ASCII case.
pub fn parse_gpu_mode(value: &str) -> (res: Result<GpuMode, ArgsError>)
    ensures
        match gpu_named(value@) {
            Some(g) => res == Ok::<GpuMode, ArgsError>(g),
            None => res == Err::<GpuMode, ArgsError>(ArgsError::InvalidGpu),
        },
{
    if lowercase_eq(value, "cpu") {
        Ok(GpuMode::Cpu)
    } else if lowercase_eq(value, "auto") {
        Ok(GpuMode::Auto)
    } else if lowercase_eq(value, "rocm") || lowercase_eq(value, "amd") || lowercase_eq(
        value,
        "radeon",
    ) {
        Ok(GpuMode::Rocm)
    } else if lowercase_eq(value, "cuda") || lowercase_eq(value, "nvidia") {
        Ok(GpuMode::Cuda)
    } else {
        Err(ArgsError::InvalidGpu)
    }
}

impl FlagValues {
    fn new() -> (res: FlagValues)
        ensures
            res@ =~= initial_flags(),
    {
        let res = FlagValues {
            replays: Vec::new(),
            out_json: None,
            out_analysis: None,
            out_players: None,
            out_pbp: None,
            out_frames: None,
            out_actors: None,
            out_attributes: None,
            out_stats: None,
            match_guid: None,
            match_guids: None,
            workers: None,
            limit: None,
            format: None,
            gpu: GpuMode::Cpu,
            rotation_events: true,
            export_meta: false,
            export_network: false,
            force: false,
            parse_only: false,
            frames_only: false,
            no_write: false,
        };
        assert(texts(res.replays@) =~= Seq::<Seq<char>>::empty());
        res
    }

    /// Applies a flag that takes the value `v`.
    fn apply_value(&mut self, a: FlagAction, v: &String) -> (res: Result<(), ArgsError>)
        requires
            takes_value(a),
        ensures
            match apply_value(a, v@, old(self)@) {
                Ok(next) => res is Ok && final(self)@ =~= next,
                Err(f) => res is Err && error_is(Command::Parse, res->Err_0, f) && !(f is UnknownFlag),
            },
    {
        match a {
            FlagAction::Replays => {
                let ghost before = self.replays@;
                self.replays.push(v.clone());
                assert(texts(self.replays@) =~= texts(before).push(v@));
            },
            FlagAction::OutJson => self.out_json = Some(v.clone()),
            FlagAction::OutAnalysis => self.out_analysis = Some(v.clone()),
            FlagAction::OutPlayers => self.out_players = Some(v.clone()),
            FlagAction::OutPbp => self.out_pbp = Some(v.clone()),
            FlagAction::OutFrames => self.out_frames = Some(v.clone()),
            FlagAction::OutActors => self.out_actors = Some(v.clone()),
            FlagAction::OutAttributes => self.out_attributes = Some(v.clone()),
            FlagAction::OutStats => self.out_stats = Some(v.clone()),
            FlagAction::MatchGuid => self.match_guid = Some(v.clone()),
            FlagAction::MatchGuids => self.match_guids = Some(v.clone()),
            FlagAction::Workers => match parse_usize(v.as_str()) {
                Some(n) => self.workers = Some(n),
                None => return Err(ArgsError::InvalidNumber),
            },
            FlagAction::Limit => match parse_usize(v.as_str()) {
                Some(n) => self.limit = Some(n),
                None => return Err(ArgsError::InvalidNumber),
            },
            FlagAction::Gpu => {
                let g = parse_gpu_mode(v.as_str())?;
                self.gpu = g;
            },
            FlagAction::RotationEvents => {
                let b = parse_bool_value(v.as_str())?;
                self.rotation_events = b;
            },
            _ => {
                let f = parse_export_format(v.as_str())?;
                self.format = Some(f);
            },
        }
        Ok(())
    }

    /// Applies a flag that takes no value.
    fn apply_switch(&mut self, a: FlagAction)
        ensures
            final(self)@ =~= apply_switch(a, old(self)@),
    {
        match a {
            FlagAction::NoRotationEvents => self.rotation_events = false,
            FlagAction::ExportMeta => self.export_meta = true,
            FlagAction::ExportNetwork => self.export_network = true,
            FlagAction::Force => self.force = true,
            FlagAction::ParseOnly => self.parse_only = true,
            FlagAction::FramesOnly => self.frames_only = true,
            FlagAction::NoWrite => self.no_write = true,
            _ => {},
        }
    }
}

/// Reads a subcommand's arguments left to right.
fn scan_flags(cmd: Command, args: &Vec<String>) -> (res: Result<FlagValues, ArgsError>)
    ensures
        match scan_from(cmd, texts(args@), 0, initial_flags()) {
            Ok(st) => res is Ok && res->Ok_0@ =~= st,
            Err(f) => res is Err && error_is(cmd, res->Err_0, f),
        },
{
    let ghost av = texts(args@);
    let mut st = FlagValues::new();
    let mut idx: usize = 0;
    while idx < args.len()
        invariant
            av == texts(args@),
            av.len() == args@.len(),
            idx <= args.len(),
            scan_from(cmd, av, idx as nat, st@) == scan_from(cmd, av, 0, initial_flags()),
        decreases args.len() - idx,
    {
        assert(av[idx as int] == args@[idx as int]@);
        let a = flag_action_of(cmd, args[idx].as_str());
        if let FlagAction::Unknown = a {
            return Err(ArgsError::UnknownFlag { command: cmd, flag: args[idx].clone() });
        }
        if takes_value_exec(a) {
            if idx + 1 >= args.len() {
                return Err(ArgsError::MissingValue);
            }
            assert(av[idx + 1] == args@[idx + 1]@);
            let ghost before = st@;
            match st.apply_value(a, &args[idx + 1]) {
                Ok(()) => {},
                Err(e) => {
                    return Err(e);
                },
            }
            idx = idx + 2;
        } else {
            st.apply_switch(a);
            idx = idx + 1;
        }
    }
    Ok(st)
}


/// Options of the `parse` subcommand.
#[derive(Clone, Debug)]
pub struct ParseArgs {
    pub replays: Vec<String>,
    pub out_json: Option<String>,
    pub out_pbp: String,
    pub out_analysis: Option<String>,
    pub out_players: Option<String>,
    pub out_frames: Option<String>,
    pub out_actors: Option<String>,
    pub out_attributes: Option<String>,
    pub workers: Option<usize>,
    pub limit: Option<usize>,
    pub export_meta: bool,
    pub export_network: bool,
    pub force: bool,
    pub pbp_format: ExportFormat,
    pub gpu: GpuMode,
    pub rotation_events: bool,
}

/// Options of the `frames` subcommand.
#[derive(Clone, Debug)]
pub struct FramesArgs {
    pub replays: Vec<String>,
    pub out_frames: String,
    pub workers: Option<usize>,
    pub limit: Option<usize>,
    pub parse_only: bool,
    pub frames_only: bool,
    pub no_write: bool,
    pub force: bool,
    pub frames_format: ExportFormat,
    pub gpu: GpuMode,
    pub rotation_events: bool,
}

/// Options of the `stats` subcommand.
#[derive(Clone, Debug)]
pub struct StatsArgs {
    pub replays: Vec<String>,
    pub out_stats: String,
    pub workers: Option<usize>,
    pub limit: Option<usize>,
    pub force: bool,
    pub stats_format: ExportFormat,
    pub gpu: GpuMode,
}

/// Options of the `index` subcommand.
#[derive(Clone, Debug)]
pub struct IndexArgs {
    pub replays: String,
    pub out_analysis: String,
    pub workers: Option<usize>,
}

/// Options of the `match-guid` subcommand.
#[derive(Clone, Debug)]
pub struct MatchGuidArgs {
    pub replays: String,
    pub match_guid: String,
    pub out_json: Option<String>,
    pub out_pbp: String,
    pub out_analysis: Option<String>,
    pub out_players: Option<String>,
    pub out_frames: Option<String>,
    pub out_actors: Option<String>,
    pub out_attributes: Option<String>,
    pub export_meta: bool,
    pub export_network: bool,
    pub pbp_format: ExportFormat,
}

/// Options of the `match-guids` subcommand.
#[derive(Clone, Debug)]
pub struct MatchGuidsArgs {
    pub replays: String,
    pub match_guids: String,
    pub out_json: Option<String>,
    pub out_pbp: String,
    pub out_analysis: Option<String>,
    pub out_players: Option<String>,
    pub out_frames: Option<String>,
    pub out_actors: Option<String>,
    pub out_attributes: Option<String>,
    pub export_meta: bool,
    pub export_network: bool,
    pub pbp_format: ExportFormat,
}

/// The value that a required flag was given; only meaningful when it was.
pub open spec fn given(o: Option<Seq<char>>) -> Seq<char> {
    match o {
        Some(v) => v,
        None => Seq::empty(),
    }
}

impl ParseArgs {
    /// These options are what the read flags say.
    pub open spec fn holds(self, st: FlagValuesView) -> bool {
        &&& texts(self.replays@) == st.replays
        &&& opt_text(self.out_json) == st.out_json
        &&& self.out_pbp@ == given(st.out_pbp)
        &&& opt_text(self.out_analysis) == st.out_analysis
        &&& opt_text(self.out_players) == st.out_players
        &&& opt_text(self.out_frames) == st.out_frames
        &&& opt_text(self.out_actors) == st.out_actors
        &&& opt_text(self.out_attributes) == st.out_attributes
        &&& self.workers == st.workers
        &&& self.limit == st.limit
        &&& self.export_meta == st.export_meta
        &&& self.export_network == st.export_network
        &&& self.force == st.force
        &&& self.pbp_format == st.format.unwrap_or(ExportFormat::Csv)
        &&& self.gpu == st.gpu
        &&& self.rotation_events == st.rotation_events
    }
}

impl FramesArgs {
    /// These options are what the read flags say; frames default to Parquet.
    pub open spec fn holds(self, st: FlagValuesView) -> bool {
        &&& texts(self.replays@) == st.replays
        &&& self.out_frames@ == given(st.out_frames)
        &&& self.workers == st.workers
        &&& self.limit == st.limit
        &&& self.parse_only == st.parse_only
        &&& self.frames_only == st.frames_only
        &&& self.no_write == st.no_write
        &&& self.force == st.force
        &&& self.frames_format == st.format.unwrap_or(ExportFormat::Parquet)
        &&& self.gpu == st.gpu
        &&& self.rotation_events == st.rotation_events
    }
}

impl StatsArgs {
    /// These options are what the read flags say.
    pub open spec fn holds(self, st: FlagValuesView) -> bool {
        &&& texts(self.replays@) == st.replays
        &&& self.out_stats@ == given(st.out_stats)
        &&& self.workers == st.workers
        &&& self.limit == st.limit
        &&& self.force == st.force
        &&& self.stats_format == st.format.unwrap_or(ExportFormat::Csv)
        &&& self.gpu == st.gpu
    }
}

impl IndexArgs {
    /// These options are what the read flags say; the last `--replays` wins.
    pub open spec fn holds(self, st: FlagValuesView) -> bool {
        &&& self.replays@ == st.replays.last()
        &&& self.out_analysis@ == given(st.out_analysis)
        &&& self.workers == st.workers
    }
}

impl MatchGuidArgs {
    /// These options are what the read flags say; the last `--replays` wins.
    pub open spec fn holds(self, st: FlagValuesView) -> bool {
        &&& self.replays@ == st.replays.last()
        &&& self.match_guid@ == given(st.match_guid)
        &&& opt_text(self.out_json) == st.out_json
        &&& self.out_pbp@ == given(st.out_pbp)
        &&& opt_text(self.out_analysis) == st.out_analysis
        &&& opt_text(self.out_players) == st.out_players
        &&& opt_text(self.out_frames) == st.out_frames
        &&& opt_text(self.out_actors) == st.out_actors
        &&& opt_text(self.out_attributes) == st.out_attributes
        &&& self.export_meta == st.export_meta
        &&& self.export_network == st.export_network
        &&& self.pbp_format == st.format.unwrap_or(ExportFormat::Csv)
    }
}

impl MatchGuidsArgs {
    /// These options are what the read flags say; the last `--replays` wins.
    pub open spec fn holds(self, st: FlagValuesView) -> bool {
        &&& self.replays@ == st.replays.last()
        &&& self.match_guids@ == given(st.match_guids)
        &&& opt_text(self.out_json) == st.out_json
        &&& self.out_pbp@ == given(st.out_pbp)
        &&& opt_text(self.out_analysis) == st.out_analysis
        &&& opt_text(self.out_players) == st.out_players
        &&& opt_text(self.out_frames) == st.out_frames
        &&& opt_text(self.out_actors) == st.out_actors
        &&& opt_text(self.out_attributes) == st.out_attributes
        &&& self.export_meta == st.export_meta
        &&& self.export_network == st.export_network
        &&& self.pbp_format == st.format.unwrap_or(ExportFormat::Csv)
    }
}

fn required(o: Option<String>, which: RequiredFlag) -> (res: Result<String, ArgsError>)
    ensures
        match o {
            Some(v) => res == Ok::<String, ArgsError>(v),
            None => res == Err::<String, ArgsError>(ArgsError::Missing(which)),
        },
{
    match o {
        Some(v) => Ok(v),
        None => Err(ArgsError::Missing(which)),
    }
}

fn last_replay(replays: &Vec<String>) -> (res: Result<String, ArgsError>)
    ensures
        replays@.len() == 0 ==> res == Err::<String, ArgsError>(ArgsError::Missing(RequiredFlag::Replays)),
        replays@.len() > 0 ==> res is Ok && res->Ok_0@ == texts(replays@).last(),
{
    if replays.len() == 0 {
        return Err(ArgsError::Missing(RequiredFlag::Replays));
    }
    let r = replays[replays.len() - 1].clone();
    Ok(r)
}

/// Reads the arguments of the `frames` subcommand.
pub fn frames_args(args: Vec<String>) -> (res: Result<FramesArgs, ArgsError>)
    ensures
        match args_outcome(Command::Frames, texts(args@)) {
            Ok(st) => res matches Ok(a) && a.holds(st),
            Err(f) => res matches Err(e) && error_is(Command::Frames, e, f),
        },
{
    let st = scan_flags(Command::Frames, &args)?;
    if st.replays.len() == 0 {
        return Err(ArgsError::Missing(RequiredFlag::Replays));
    }
    let out_frames = required(st.out_frames, RequiredFlag::OutFrames)?;
    let frames_format = match st.format {
        Some(f) => f,
        None => ExportFormat::Parquet,
    };
    Ok(FramesArgs {
        replays: st.replays,
        out_frames,
        workers: st.workers,
        limit: st.limit,
        parse_only: st.parse_only,
        frames_only: st.frames_only,
        no_write: st.no_write,
        force: st.force,
        frames_format,
        gpu: st.gpu,
        rotation_events: st.rotation_events,
    })
}

/// Reads the arguments of the `parse` subcommand.
pub fn parse_args(args: Vec<String>) -> (res: Result<ParseArgs, ArgsError>)
    ensures
        match args_outcome(Command::Parse, texts(args@)) {
            Ok(st) => res matches Ok(a) && a.holds(st),
            Err(f) => res matches Err(e) && error_is(Command::Parse, e, f),
        },
{
    let st = scan_flags(Command::Parse, &args)?;
    if st.replays.len() == 0 {
        return Err(ArgsError::Missing(RequiredFlag::Replays));
    }
    let out_pbp = required(st.out_pbp, RequiredFlag::OutPbp)?;
    let pbp_format = match st.format {
        Some(f) => f,
        None => ExportFormat::Csv,
    };
    Ok(ParseArgs {
        replays: st.replays,
        out_json: st.out_json,
        out_pbp,
        out_analysis: st.out_analysis,
        out_players: st.out_players,
        out_frames: st.out_frames,
        out_actors: st.out_actors,
        out_attributes: st.out_attributes,
        workers: st.workers,
        limit: st.limit,
        export_meta: st.export_meta,
        export_network: st.export_network,
        force: st.force,
        pbp_format,
        gpu: st.gpu,
        rotation_events: st.rotation_events,
    })
}

/// Reads the arguments of the `stats` subcommand.
pub fn stats_args(args: Vec<String>) -> (res: Result<StatsArgs, ArgsError>)
    ensures
        match args_outcome(Command::Stats, texts(args@)) {
            Ok(st) => res matches Ok(a) && a.holds(st),
            Err(f) => res matches Err(e) && error_is(Command::Stats, e, f),
        },
{
    let st = scan_flags(Command::Stats, &args)?;
    if st.replays.len() == 0 {
        return Err(ArgsError::Missing(RequiredFlag::Replays));
    }
    let out_stats = required(st.out_stats, RequiredFlag::OutStats)?;
    let stats_format = match st.format {
        Some(f) => f,
        None => ExportFormat::Csv,
    };
    Ok(StatsArgs {
        replays: st.replays,
        out_stats,
        workers: st.workers,
        limit: st.limit,
        force: st.force,
        stats_format,
        gpu: st.gpu,
    })
}

/// Reads the arguments of the `index` subcommand.
pub fn index_args(args: Vec<String>) -> (res: Result<IndexArgs, ArgsError>)
    ensures
        match args_outcome(Command::Index, texts(args@)) {
            Ok(st) => res matches Ok(a) && a.holds(st),
            Err(f) => res matches Err(e) && error_is(Command::Index, e, f),
        },
{
    let st = scan_flags(Command::Index, &args)?;
    let replays = last_replay(&st.replays)?;
    let out_analysis = required(st.out_analysis, RequiredFlag::OutAnalysis)?;
    Ok(IndexArgs { replays, out_analysis, workers: st.workers })
}

/// Reads the arguments of the `match-guid` subcommand.
pub fn match_guid_args(args: Vec<String>) -> (res: Result<MatchGuidArgs, ArgsError>)
    ensures
        match args_outcome(Command::MatchGuid, texts(args@)) {
            Ok(st) => res matches Ok(a) && a.holds(st),
            Err(f) => res matches Err(e) && error_is(Command::MatchGuid, e, f),
        },
{
    let st = scan_flags(Command::MatchGuid, &args)?;
    let replays = last_replay(&st.replays)?;
    let match_guid = required(st.match_guid, RequiredFlag::MatchGuid)?;
    let out_pbp = required(st.out_pbp, RequiredFlag::OutPbp)?;
    let pbp_format = match st.format {
        Some(f) => f,
        None => ExportFormat::Csv,
    };
    Ok(MatchGuidArgs {
        replays,
        match_guid,
        out_json: st.out_json,
        out_pbp,
        out_analysis: st.out_analysis,
        out_players: st.out_players,
        out_frames: st.out_frames,
        out_actors: st.out_actors,
        out_attributes: st.out_attributes,
        export_meta: st.export_meta,
        export_network: st.export_network,
        pbp_format,
    })
}

/// Reads the arguments of the `match-guids` subcommand.
pub fn match_guids_args(args: Vec<String>) -> (res: Result<MatchGuidsArgs, ArgsError>)
    ensures
        match args_outcome(Command::MatchGuids, texts(args@)) {
            Ok(st) => res matches Ok(a) && a.holds(st),
            Err(f) => res matches Err(e) && error_is(Command::MatchGuids, e, f),
        },
{
    let st = scan_flags(Command::MatchGuids, &args)?;
    let replays = last_replay(&st.replays)?;
    let match_guids = required(st.match_guids, RequiredFlag::MatchGuids)?;
    let out_pbp = required(st.out_pbp, RequiredFlag::OutPbp)?;
    let pbp_format = match st.format {
        Some(f) => f,
        None => ExportFormat::Csv,
    };
    Ok(MatchGuidsArgs {
        replays,
        match_guids,
        out_json: st.out_json,
        out_pbp,
        out_analysis: st.out_analysis,
        out_players: st.out_players,
        out_frames: st.out_frames,
        out_actors: st.out_actors,
        out_attributes: st.out_attributes,
        export_meta: st.export_meta,
        export_network: st.export_network,
        pbp_format,
    })
}

/// The file extension of an export format.
pub fn export_extension(format: ExportFormat) -> (res: &'static str)
    ensures
        res@ == match format {
            ExportFormat::Csv => "csv"@,
            ExportFormat::Parquet => "parquet"@,
        },
{
    match format {
        ExportFormat::Csv => "csv",
        ExportFormat::Parquet => "parquet",
    }
}

/// Checks that the metadata and network exports name all their outputs.
pub fn check_export_args(
    export_meta: bool,
    export_network: bool,
    out_analysis: Option<&String>,
    out_players: Option<&String>,
    out_frames: Option<&String>,
    out_actors: Option<&String>,
    out_attributes: Option<&String>,
) -> (res: Result<(), ArgsError>)
    ensures
        res == if export_meta && (out_analysis is None || out_players is None) {
            Err::<(), ArgsError>(ArgsError::MetaExportOutputs)
        } else if export_network && (out_frames is None || out_actors is None
            || out_attributes is None) {
            Err(ArgsError::NetworkExportOutputs)
        } else {
            Ok(())
        },
{
    if export_meta && (out_analysis.is_none() || out_players.is_none()) {
        return Err(ArgsError::MetaExportOutputs);
    }
    if export_network && (out_frames.is_none() || out_actors.is_none() || out_attributes.is_none()) {
        return Err(ArgsError::NetworkExportOutputs);
    }
    Ok(())
}


/// Which of a replay's exports already exist: `None` for an export whose
/// folder was not given.
#[derive(Clone, Copy, Debug, PartialEq, Eq, Structural)]
pub struct ExportState {
    pub force: bool,
    pub json: Option<bool>,
    pub pbp: bool,
    pub export_meta: bool,
    pub analysis: Option<bool>,
    pub players: Option<bool>,
    pub export_network: bool,
    pub frames: Option<bool>,
    pub actors: Option<bool>,
    pub deleted_actors: Option<bool>,
    pub attributes: Option<bool>,
}

/// Which exports `parse` writes for a replay.
#[derive(Clone, Copy, Debug, PartialEq, Eq, Structural)]
pub struct ExportWork {
    pub json: bool,
    pub meta: bool,
    pub network: bool,
    pub pbp: bool,
}

/// An export file is missing: it does not exist, or its folder was not
/// given.
pub open spec fn file_missing(exists: Option<bool>) -> bool {
    match exists {
        Some(e) => !e,
        None => true,
    }
}

/// The exports to write: the JSON when its folder is given and it is
/// missing, the play-by-play when it is missing, the metadata and network
/// exports when asked for and one of their files is missing; with `force`,
/// every one that is asked for.
pub open spec fn export_work_for(st: ExportState) -> ExportWork {
    ExportWork {
        json: match st.json {
            Some(e) => st.force || !e,
            None => false,
        },
        meta: st.export_meta && (st.force || file_missing(st.analysis) || file_missing(st.players)),
        network: st.export_network && (st.force || file_missing(st.frames) || file_missing(st.actors)
            || file_missing(st.deleted_actors) || file_missing(st.attributes)),
        pbp: st.force || !st.pbp,
    }
}

fn missing_file(exists: Option<bool>) -> (res: bool)
    ensures
        res == file_missing(exists),
{
    match exists {
        Some(e) => !e,
        None => true,
    }
}

/// Decides which exports `parse` writes for a replay; a replay with none
/// to write is not parsed at all.
pub fn export_work(st: ExportState) -> (res: ExportWork)
    ensures
        res == export_work_for(st),
{
    ExportWork {
        json: match st.json {
            Some(e) => st.force || !e,
            None => false,
        },
        meta: st.export_meta && (st.force || missing_file(st.analysis) || missing_file(st.players)),
        network: st.export_network && (st.force || missing_file(st.frames) || missing_file(st.actors)
            || missing_file(st.deleted_actors) || missing_file(st.attributes)),
        pbp: st.force || !st.pbp,
    }
}

proof fn lemma_scan_shift(cmd: Command, a1: Seq<Seq<char>>, a2: Seq<Seq<char>>, j: nat, st: FlagValuesView)
    ensures
        scan_from(cmd, a1 + a2, a1.len() + j, st) == scan_from(cmd, a2, j, st),
    decreases a2.len() - j,
{
    let both = a1 + a2;
    if j < a2.len() {
        assert(both[(a1.len() + j) as int] == a2[j as int]);
        let a = flag_action(cmd, a2[j as int]);
        if a != FlagAction::Unknown {
            if takes_value(a) {
                if j + 1 < a2.len() {
                    assert(both[(a1.len() + j + 1) as int] == a2[(j + 1) as int]);
                    match apply_value(a, a2[(j + 1) as int], st) {
                        Ok(next) => {
                            lemma_scan_shift(cmd, a1, a2, j + 2, next);
                            assert(a1.len() + j + 2 == a1.len() + (j + 2));
                        },
                        Err(_) => {},
                    }
                }
            } else {
                lemma_scan_shift(cmd, a1, a2, j + 1, apply_switch(a, st));
            }
        }
    }
}

proof fn lemma_scan_append(cmd: Command, a1: Seq<Seq<char>>, a2: Seq<Seq<char>>, i: nat, st: FlagValuesView)
    requires
        i <= a1.len(),
        scan_from(cmd, a1, i, st) is Ok,
    ensures
        scan_from(cmd, a1 + a2, i, st) == scan_from(cmd, a2, 0, scan_from(cmd, a1, i, st)->Ok_0),
    decreases a1.len() - i,
{
    let both = a1 + a2;
    if i == a1.len() {
        lemma_scan_shift(cmd, a1, a2, 0, st);
    } else {
        assert(both[i as int] == a1[i as int]);
        let a = flag_action(cmd, a1[i as int]);
        if takes_value(a) {
            assert(both[(i + 1) as int] == a1[(i + 1) as int]);
            let next = apply_value(a, a1[(i + 1) as int], st)->Ok_0;
            lemma_scan_append(cmd, a1, a2, i + 2, next);
        } else {
            lemma_scan_append(cmd, a1, a2, i + 1, apply_switch(a, st));
        }
    }
}

/// Flags are read left to right: reading a list that was read without
/// error, followed by more arguments, reads the rest from where the list
/// left off.
pub proof fn law_flags_read_in_order(cmd: Command, first: Seq<Seq<char>>, rest: Seq<Seq<char>>)
    requires
        scan_from(cmd, first, 0, initial_flags()) is Ok,
    ensures
        scan_from(cmd, first + rest, 0, initial_flags()) == scan_from(
            cmd,
            rest,
            0,
            scan_from(cmd, first, 0, initial_flags())->Ok_0,
        ),
{
    lemma_scan_append(cmd, first, rest, 0, initial_flags());
}

/// Adding `--no-rotation-events` to accepted `parse` arguments turns
/// rotation events off and changes nothing else.
pub proof fn law_no_rotation_events(args: Seq<Seq<char>>)
    requires
        args_outcome(Command::Parse, args) is Ok,
    ensures
        args_outcome(Command::Parse, args.push("--no-rotation-events"@)) == Ok::<FlagValuesView, ArgsFailure>(
            FlagValuesView { rotation_events: false, ..args_outcome(Command::Parse, args)->Ok_0 },
        ),
{
    reveal_strlit("--no-rotation-events");
    reveal_strlit("--replays");
    reveal_strlit("--out-json");
    reveal_strlit("--out-analysis");
    reveal_strlit("--out-players");
    reveal_strlit("--out-pbp");
    reveal_strlit("--out-frames");
    reveal_strlit("--out-actors");
    reveal_strlit("--out-attributes");
    reveal_strlit("--out-stats");
    reveal_strlit("--match-guid");
    reveal_strlit("--match-guids");
    reveal_strlit("--workers");
    reveal_strlit("--limit");
    reveal_strlit("--format");
    reveal_strlit("--pbp-format");
    reveal_strlit("--frames-format");
    reveal_strlit("--stats-format");
    reveal_strlit("--gpu");
    reveal_strlit("--rotation-events");
    let flag = "--no-rotation-events"@;
    let tail = seq![flag];
    assert(args.push(flag) =~= args + tail);
    lemma_scan_append(Command::Parse, args, tail, 0, initial_flags());
    let st = scan_from(Command::Parse, args, 0, initial_flags())->Ok_0;
    assert(flag != "--replays"@) by { assert(flag.len() != "--replays"@.len()); }
    assert(flag != "--out-json"@) by { assert(flag.len() != "--out-json"@.len()); }
    assert(flag != "--out-analysis"@) by { assert(flag.len() != "--out-analysis"@.len()); }
    assert(flag != "--out-players"@) by { assert(flag.len() != "--out-players"@.len()); }
    assert(flag != "--out-pbp"@) by { assert(flag.len() != "--out-pbp"@.len()); }
    assert(flag != "--out-frames"@) by { assert(flag.len() != "--out-frames"@.len()); }
    assert(flag != "--out-actors"@) by { assert(flag.len() != "--out-actors"@.len()); }
    assert(flag != "--out-attributes"@) by { assert(flag.len() != "--out-attributes"@.len()); }
    assert(flag != "--out-stats"@) by { assert(flag.len() != "--out-stats"@.len()); }
    assert(flag != "--match-guid"@) by { assert(flag.len() != "--match-guid"@.len()); }
    assert(flag != "--match-guids"@) by { assert(flag.len() != "--match-guids"@.len()); }
    assert(flag != "--workers"@) by { assert(flag.len() != "--workers"@.len()); }
    assert(flag != "--limit"@) by { assert(flag.len() != "--limit"@.len()); }
    assert(flag != "--format"@) by { assert(flag.len() != "--format"@.len()); }
    assert(flag != "--pbp-format"@) by { assert(flag.len() != "--pbp-format"@.len()); }
    assert(flag != "--frames-format"@) by { assert(flag.len() != "--frames-format"@.len()); }
    assert(flag != "--stats-format"@) by { assert(flag.len() != "--stats-format"@.len()); }
    assert(flag != "--gpu"@) by { assert(flag.len() != "--gpu"@.len()); }
    assert(flag != "--rotation-events"@) by { assert(flag.len() != "--rotation-events"@.len()); }
    assert(flag_action(Command::Parse, flag) == FlagAction::NoRotationEvents);
    let next = apply_switch(FlagAction::NoRotationEvents, st);
    assert(scan_from(Command::Parse, tail, 1, next) == Ok::<FlagValuesView, ArgsFailure>(next));
    assert(scan_from(Command::Parse, tail, 0, st) == Ok::<FlagValuesView, ArgsFailure>(next));
}

/// A boolean flag value names true when it is `true`, `1`, `yes`, `y` or
/// `on` and false when it is `false`, `0`, `no`, `n` or `off`, whatever
/// the ASCII case of its letters; it names nothing else.
pub proof fn law_bool_words(v: Seq<char>)
    ensures
        lowercase_is(v, "true"@) || lowercase_is(v, "1"@) || lowercase_is(v, "yes"@) || lowercase_is(v, "y"@)
            || lowercase_is(v, "on"@) ==> bool_named(v) == Some(true),
        lowercase_is(v, "false"@) || lowercase_is(v, "0"@) || lowercase_is(v, "no"@) || lowercase_is(v, "n"@)
            || lowercase_is(v, "off"@) ==> bool_named(v) == Some(false),
        bool_named(v) == Some(true) ==> lowercase_is(v, "true"@) || lowercase_is(v, "1"@) || lowercase_is(
            v,
            "yes"@,
        ) || lowercase_is(v, "y"@) || lowercase_is(v, "on"@),
        bool_named(v) == Some(false) ==> lowercase_is(v, "false"@) || lowercase_is(v, "0"@) || lowercase_is(
            v,
            "no"@,
        ) || lowercase_is(v, "n"@) || lowercase_is(v, "off"@),
{
    reveal_strlit("true");
    reveal_strlit("1");
    reveal_strlit("yes");
    reveal_strlit("y");
    reveal_strlit("on");
    reveal_strlit("false");
    reveal_strlit("0");
    reveal_strlit("no");
    reveal_strlit("n");
    reveal_strlit("off");
    lemma_words_differ(v, "0"@, "1"@, 0);
    lemma_words_differ(v, "0"@, "y"@, 0);
    lemma_words_differ(v, "no"@, "on"@, 0);
    lemma_words_differ(v, "n"@, "1"@, 0);
    lemma_words_differ(v, "n"@, "y"@, 0);
    lemma_words_differ(v, "off"@, "yes"@, 0);
}

proof fn lemma_words_differ(v: Seq<char>, a: Seq<char>, b: Seq<char>, i: int)
    requires
        a.len() == b.len(),
        0 <= i < a.len(),
        a[i] as u32 != b[i] as u32,
    ensures
        !(lowercase_is(v, a) && lowercase_is(v, b)),
{
    if lowercase_is(v, a) && lowercase_is(v, b) {
        assert(ascii_lower_code(v[i]) == a[i] as u32);
        assert(ascii_lower_code(v[i]) == b[i] as u32);
    }
}

} // verus!
