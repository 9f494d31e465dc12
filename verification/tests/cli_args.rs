use analyzerl_boxcars::cli::{
    check_export_args, export_extension, frames_args, index_args, match_guid_args,
    match_guids_args, parse_args, stats_args, ArgsError, Command, ExportFormat, GpuMode,
    RequiredFlag,
};

fn args(items: &[&str]) -> Vec<String> {
    items.iter().map(|s| s.to_string()).collect()
}

#[test]
fn parse_args_reads_required_and_defaults() {
    let parsed = parse_args(args(&["--replays", "data/replays", "--out-pbp", "data/pbp"])).unwrap();
    assert_eq!(parsed.replays, vec!["data/replays".to_string()]);
    assert_eq!(parsed.out_pbp, "data/pbp");
    assert_eq!(parsed.pbp_format, ExportFormat::Csv);
    assert_eq!(parsed.gpu, GpuMode::Cpu);
    assert!(parsed.rotation_events);
    assert!(!parsed.force);
}

#[test]
fn parse_args_no_rotation_events_disables_rotation() {
    let parsed = parse_args(args(&[
        "--replays", "r", "--out-pbp", "p", "--no-rotation-events",
    ]))
    .unwrap();
    assert!(!parsed.rotation_events);
}

#[test]
fn frames_args_defaults_to_parquet() {
    let parsed = frames_args(args(&["--replays", "r", "--out-frames", "f"])).unwrap();
    assert_eq!(parsed.frames_format, ExportFormat::Parquet);
}

#[test]
fn parse_args_unknown_flag() {
    let err = parse_args(args(&["--frames-format", "csv"])).unwrap_err();
    assert_eq!(
        err,
        ArgsError::UnknownFlag { command: Command::Parse, flag: "--frames-format".to_string() }
    );
}

#[test]
fn parse_args_missing_replays() {
    let err = parse_args(args(&["--out-pbp", "p"])).unwrap_err();
    assert_eq!(err, ArgsError::Missing(RequiredFlag::Replays));
}

#[test]
fn flag_without_value_is_refused() {
    let err = parse_args(args(&["--replays"])).unwrap_err();
    assert_eq!(err, ArgsError::MissingValue);
}

#[test]
fn bad_worker_count_is_refused() {
    let err = parse_args(args(&["--replays", "r", "--out-pbp", "p", "--workers", "x"])).unwrap_err();
    assert_eq!(err, ArgsError::InvalidNumber);
    let err = parse_args(args(&["--replays", "r", "--out-pbp", "p", "--limit", "-1"])).unwrap_err();
    assert_eq!(err, ArgsError::InvalidNumber);
}

#[test]
fn worker_count_and_limit_are_read() {
    let parsed = parse_args(args(&[
        "--replays", "r", "--out-pbp", "p", "--workers", "+4", "--limit", "12",
    ]))
    .unwrap();
    assert_eq!(parsed.workers, Some(4));
    assert_eq!(parsed.limit, Some(12));
}

#[test]
fn export_formats_ignore_case() {
    let parsed = parse_args(args(&["--replays", "r", "--out-pbp", "p", "--format", "PARQUET"])).unwrap();
    assert_eq!(parsed.pbp_format, ExportFormat::Parquet);
    let err = parse_args(args(&["--replays", "r", "--out-pbp", "p", "--pbp-format", "json"])).unwrap_err();
    assert_eq!(err, ArgsError::InvalidExportFormat);
}

#[test]
fn rotation_event_values() {
    let parsed = frames_args(args(&[
        "--replays", "r", "--out-frames", "f", "--rotation-events", "off",
    ]))
    .unwrap();
    assert!(!parsed.rotation_events);
    let err = frames_args(args(&[
        "--replays", "r", "--out-frames", "f", "--rotation-events", "maybe",
    ]))
    .unwrap_err();
    assert_eq!(err, ArgsError::InvalidBool);
}

#[test]
fn gpu_values() {
    let parsed = parse_args(args(&["--replays", "r", "--out-pbp", "p", "--gpu", "NVIDIA"])).unwrap();
    assert_eq!(parsed.gpu, GpuMode::Cuda);
    let parsed = parse_args(args(&["--replays", "r", "--out-pbp", "p", "--gpu", "radeon"])).unwrap();
    assert_eq!(parsed.gpu, GpuMode::Rocm);
    let parsed = parse_args(args(&["--replays", "r", "--out-pbp", "p", "--gpu", "auto"])).unwrap();
    assert_eq!(parsed.gpu, GpuMode::Auto);
    let err = parse_args(args(&["--replays", "r", "--out-pbp", "p", "--gpu", "tpu"])).unwrap_err();
    assert_eq!(err, ArgsError::InvalidGpu);
}

#[test]
fn parse_needs_out_pbp() {
    let err = parse_args(args(&["--replays", "r"])).unwrap_err();
    assert_eq!(err, ArgsError::Missing(RequiredFlag::OutPbp));
}

#[test]
fn replays_accumulate() {
    let parsed = parse_args(args(&["--replays", "a", "--replays", "b", "--out-pbp", "p"])).unwrap();
    assert_eq!(parsed.replays, vec!["a".to_string(), "b".to_string()]);
}

#[test]
fn frames_switches() {
    let parsed = frames_args(args(&[
        "--replays", "r", "--out-frames", "f", "--parse-only", "--no-write", "--force",
    ]))
    .unwrap();
    assert!(parsed.parse_only);
    assert!(parsed.no_write);
    assert!(parsed.force);
    assert!(!parsed.frames_only);
    let err = frames_args(args(&["--replays", "r"])).unwrap_err();
    assert_eq!(err, ArgsError::Missing(RequiredFlag::OutFrames));
}

#[test]
fn stats_arguments() {
    let parsed = stats_args(args(&["--replays", "r", "--out-stats", "s", "--stats-format", "parquet"])).unwrap();
    assert_eq!(parsed.out_stats, "s");
    assert_eq!(parsed.stats_format, ExportFormat::Parquet);
    let err = stats_args(args(&["--replays", "r"])).unwrap_err();
    assert_eq!(err, ArgsError::Missing(RequiredFlag::OutStats));
    let err = stats_args(args(&["--replays", "r", "--out-pbp", "p"])).unwrap_err();
    assert_eq!(err, ArgsError::UnknownFlag { command: Command::Stats, flag: "--out-pbp".to_string() });
}

#[test]
fn index_arguments() {
    let parsed = index_args(args(&["--replays", "a", "--replays", "b", "--out-analysis", "o"])).unwrap();
    assert_eq!(parsed.replays, "b");
    assert_eq!(parsed.out_analysis, "o");
    let err = index_args(args(&["--replays", "a"])).unwrap_err();
    assert_eq!(err, ArgsError::Missing(RequiredFlag::OutAnalysis));
    let err = index_args(args(&["--out-analysis", "o"])).unwrap_err();
    assert_eq!(err, ArgsError::Missing(RequiredFlag::Replays));
}

#[test]
fn match_guid_arguments() {
    let parsed = match_guid_args(args(&[
        "--replays", "r", "--match-guid", "ABC", "--out-pbp", "p", "--export-meta",
    ]))
    .unwrap();
    assert_eq!(parsed.match_guid, "ABC");
    assert!(parsed.export_meta);
    assert_eq!(parsed.pbp_format, ExportFormat::Csv);
    let err = match_guid_args(args(&["--replays", "r", "--out-pbp", "p"])).unwrap_err();
    assert_eq!(err, ArgsError::Missing(RequiredFlag::MatchGuid));
}

#[test]
fn match_guids_arguments() {
    let parsed = match_guids_args(args(&[
        "--replays", "r", "--match-guids", "guids.txt", "--out-pbp", "p",
    ]))
    .unwrap();
    assert_eq!(parsed.match_guids, "guids.txt");
    let err = match_guids_args(args(&["--replays", "r", "--out-pbp", "p"])).unwrap_err();
    assert_eq!(err, ArgsError::Missing(RequiredFlag::MatchGuids));
}

#[test]
fn export_checks() {
    let a = "a".to_string();
    assert_eq!(
        check_export_args(true, false, Some(&a), None, None, None, None),
        Err(ArgsError::MetaExportOutputs)
    );
    assert_eq!(
        check_export_args(false, true, None, None, Some(&a), Some(&a), None),
        Err(ArgsError::NetworkExportOutputs)
    );
    assert_eq!(check_export_args(true, true, Some(&a), Some(&a), Some(&a), Some(&a), Some(&a)), Ok(()));
    assert_eq!(check_export_args(false, false, None, None, None, None, None), Ok(()));
}

#[test]
fn export_extensions() {
    assert_eq!(export_extension(ExportFormat::Csv), "csv");
    assert_eq!(export_extension(ExportFormat::Parquet), "parquet");
}
