use autogen::config::{checkConfig, config_with_memory, max_batch_size, Config, ConfigError, FileConfig};
use autogen::fs::{getDirsWithMaxSize, getRecursiveJsonFilesFromDir, tree_info, FsEntry};
use autogen::input::{
    config_path, is_silent, parseArguments, program_arguments, select_mode, split_argument,
    RunMode,
};
use autogen::output::colourise;
use autogen::process::{
    asset_path_for_removal, asset_path_for_report, clean_dump_dir, directory_targets,
    distinct_asset_types, files_at_iteration, generation_arguments_exec, generation_command,
    matches_ignoring_case, matching_files, order_asset_types,
};
use autogen::schedule::{GenerationAction, GenerationError, GenerationEvent, GenerationState};
use autogen::walk::{
    asset_class_from, dependencies_from_captures, DependencyWalk, FileIterationInfo, WalkError,
};
use autogen::report::{
    checking_file, class_done, failure_report, file_list, found_types, match_report,
    round_start, walk_summary,
};
use autogen::text::{
    chars_of, contains_str, decimal_string, ends_with_str, equal_str, join_str, parse_u64_str,
    replace_str, string_of,
};

fn strings(items: &[&str]) -> Vec<String> {
    items.iter().map(|s| s.to_string()).collect()
}

fn full_config() -> FileConfig {
    FileConfig {
        ue4cmd: Some("UE4Editor-Cmd".to_string()),
        project: Some("Proj.uproject".to_string()),
        projectdir: Some("Proj".to_string()),
        dumpdir: Some("dump".to_string()),
        nongendump: Some("nongenout".to_string()),
        assetOrder: Some(strings(&["Texture2D", "Material", "Blueprint"])),
        refreshExistingAssets: Some(false),
    }
}

// ----- text -----

#[test]
fn replace_replaces_every_occurrence_from_the_left() {
    assert_eq!(replace_str("aaaa", "aa", "b"), "bb");
    assert_eq!(replace_str("nongenout/Game/A.json", "nongenout/", "out/"), "out/Game/A.json");
    assert_eq!(replace_str("a\\b\\c", "\\", "/"), "a/b/c");
    assert_eq!(replace_str("abc", "x", "y"), "abc");
}

#[test]
fn replace_with_empty_pattern_interleaves() {
    assert_eq!(replace_str("ab", "", "-"), "-a-b-");
    assert_eq!(replace_str("ab", "", ""), "ab");
    assert_eq!(replace_str("", "", "x"), "x");
}

#[test]
fn contains_and_ends_with() {
    assert!(contains_str("hello world", "o w"));
    assert!(contains_str("abc", ""));
    assert!(!contains_str("abc", "abcd"));
    assert!(ends_with_str("file.json", ".json"));
    assert!(!ends_with_str("json", ".json"));
    assert!(equal_str("abc", "abc"));
    assert!(!equal_str("abc", "abd"));
}

#[test]
fn chars_round_trip() {
    let v = chars_of("héllo");
    assert_eq!(v, vec!['h', 'é', 'l', 'l', 'o']);
    assert_eq!(string_of(&v), "héllo");
}

#[test]
fn join_puts_separator_between() {
    assert_eq!(join_str(&strings(&["a", "b", "c"]), ", "), "a, b, c");
    assert_eq!(join_str(&strings(&["a"]), ", "), "a");
    assert_eq!(join_str(&Vec::new(), ", "), "");
}

#[test]
fn decimal_writes_numbers() {
    assert_eq!(decimal_string(0), "0");
    assert_eq!(decimal_string(7), "7");
    assert_eq!(decimal_string(1234567890), "1234567890");
    assert_eq!(decimal_string(u64::MAX), u64::MAX.to_string());
}

#[test]
fn parse_reads_unsigned_numbers_as_std_does() {
    for s in ["0", "42", "+42", "007", "18446744073709551615", "18446744073709551616", "", "+", "-1", "-0", "1a", " 1", "٣"] {
        assert_eq!(parse_u64_str(s), s.parse::<u64>().ok(), "input {:?}", s);
    }
}

#[test]
fn decimal_parses_back() {
    for n in [0u64, 9, 10, 99, 100, 123456789, u64::MAX] {
        assert_eq!(parse_u64_str(&decimal_string(n)), Some(n));
    }
}

// ----- input -----

#[test]
fn arguments_split_at_first_equals_sign() {
    let parsed = parseArguments(strings(&["mode=t", "path=a=b", "flag"]));
    assert_eq!(parsed.get("mode"), Some(&"t".to_string()));
    assert_eq!(parsed.get("path"), Some(&"a=b".to_string()));
    assert_eq!(parsed.get("flag"), None);
    assert_eq!(parsed.malformed(), &strings(&["flag"]));
}

#[test]
fn later_argument_overrides_earlier() {
    let parsed = parseArguments(strings(&["mode=t", "mode=lfm"]));
    assert_eq!(parsed.get("mode"), Some(&"lfm".to_string()));
    assert!(parsed.malformed().is_empty());
}

#[test]
fn empty_key_and_value_are_kept() {
    let parsed = parseArguments(strings(&["=x", "k="]));
    assert_eq!(parsed.get(""), Some(&"x".to_string()));
    assert_eq!(parsed.get("k"), Some(&"".to_string()));
}

#[test]
fn split_argument_cases() {
    assert_eq!(split_argument("a=b"), Some(("a".to_string(), "b".to_string())));
    assert_eq!(split_argument("ab"), None);
    assert_eq!(split_argument(""), None);
}

#[test]
fn modes_are_named_by_short_and_long_words() {
    assert_eq!(select_mode("lfm"), Some(RunMode::LookForMatch));
    assert_eq!(select_mode("lookformatch"), Some(RunMode::LookForMatch));
    assert_eq!(select_mode("t"), Some(RunMode::GenerateTarget));
    assert_eq!(select_mode("targeted"), Some(RunMode::GenerateTarget));
    assert_eq!(select_mode("td"), Some(RunMode::GenerateDirectory));
    assert_eq!(select_mode("targeteddir"), Some(RunMode::GenerateDirectory));
    assert_eq!(select_mode("T"), None);
    assert_eq!(select_mode(""), None);
}

#[test]
fn executable_names_are_dropped() {
    let args = program_arguments(strings(&["AutoGen.exe", "mode=t", "x.exe", "path=a"]));
    assert_eq!(args, strings(&["mode=t", "path=a"]));
}

#[test]
fn config_path_defaults() {
    assert_eq!(config_path(&parseArguments(strings(&["mode=t"]))), "config.json");
    assert_eq!(config_path(&parseArguments(strings(&["config=c.json"]))), "c.json");
}

#[test]
fn silent_whatever_its_value() {
    assert!(is_silent(&parseArguments(strings(&["silent=true"]))));
    assert!(is_silent(&parseArguments(strings(&["silent=false"]))));
    assert!(!is_silent(&parseArguments(strings(&["mode=t"]))));
}

// ----- output -----

#[test]
fn colour_tags_become_ansi_codes() {
    assert_eq!(colourise("<<red>>x</red>>"), Some("\x1b[31mx\x1b[0m".to_string()));
    assert_eq!(
        colourise("a <<green>>b</green>> c <<grey>>d</grey>>"),
        Some("a \x1b[32mb\x1b[0m c \x1b[90md\x1b[0m".to_string())
    );
    assert_eq!(colourise("<<yellow>>y</yellow>>"), Some("\x1b[33my\x1b[0m".to_string()));
}

#[test]
fn colour_tags_match_lazily_and_leave_others() {
    assert_eq!(
        colourise("<<red>>a</red>> <<red>>b</red>>"),
        Some("\x1b[31ma\x1b[0m \x1b[31mb\x1b[0m".to_string())
    );
    assert_eq!(colourise("<<blue>>x</blue>>"), Some("<<blue>>x</blue>>".to_string()));
    assert_eq!(colourise("plain"), Some("plain".to_string()));
}

// ----- process -----

#[test]
fn asset_class_is_first_capture_or_empty() {
    assert_eq!(asset_class_from(&vec![]), Some(String::new()));
    assert_eq!(asset_class_from(&vec![Some("A".to_string()), Some("B".to_string())]), Some("A".to_string()));
    assert_eq!(asset_class_from(&vec![None]), None);
}

#[test]
fn dependencies_are_deduplicated_self_skipped_and_suffixed() {
    let caps = vec![
        Some("/Game/B".to_string()),
        Some("/Game/B".to_string()),
        Some("/Game/A".to_string()),
        Some("/Game/C.json".to_string()),
    ];
    let deps = dependencies_from_captures("nongenout\\Game\\A.json", &caps).unwrap();
    assert_eq!(deps, strings(&["nongenout/Game/B.json", "nongenout/Game/C.json"]));
    assert_eq!(dependencies_from_captures("x", &vec![None]), None);
}

fn entry(path: &str, iteration: u32, asset: &str) -> FileIterationInfo {
    FileIterationInfo {
        rootPath: path.to_string(),
        modPath: replace_str(path, "nongenout/", "out/"),
        iteration,
        assetType: asset.to_string(),
    }
}

#[test]
fn walk_reads_dependencies_depth_first() {
    let mut walk = DependencyWalk::new(&strings(&["nongenout/Game/A.json"]));
    assert_eq!(walk.next_target(), Some(("nongenout/Game/A.json".to_string(), 0)));
    walk.visit(r#"{"AssetClass": "Blueprint", "r": "/Game/B.json", "s": "/Game/C.uasset", "t": "/Game/A.json"}"#)
        .unwrap();
    assert_eq!(walk.next_target(), Some(("nongenout/Game/B.json".to_string(), 1)));
    walk.visit(r#"{"AssetClass": "Material", "d": "/Game/D"}"#).unwrap();
    assert_eq!(walk.next_target(), Some(("nongenout/Game/D.json".to_string(), 2)));
    walk.visit("{}").unwrap();
    assert_eq!(walk.next_target(), Some(("nongenout/Game/C.json".to_string(), 1)));
    walk.visit(r#"{"AssetClass": "Texture2D"}"#).unwrap();
    assert_eq!(walk.next_target(), None);
    let files = walk.files();
    let got: Vec<(String, String, u32, String)> = files
        .iter()
        .map(|f| (f.rootPath.clone(), f.modPath.clone(), f.iteration, f.assetType.clone()))
        .collect();
    assert_eq!(
        got,
        vec![
            ("nongenout/Game/A.json".to_string(), "out/Game/A.json".to_string(), 0, "Blueprint".to_string()),
            ("nongenout/Game/B.json".to_string(), "out/Game/B.json".to_string(), 1, "Material".to_string()),
            ("nongenout/Game/D.json".to_string(), "out/Game/D.json".to_string(), 2, "".to_string()),
            ("nongenout/Game/C.json".to_string(), "out/Game/C.json".to_string(), 1, "Texture2D".to_string()),
        ]
    );
    // The depth kept is the greatest depth read.
    assert_eq!(walk.highest_iteration(), 2);
    assert!(matches!(walk.visit("{}"), Err(WalkError::NothingPending)));
}

#[test]
fn walk_over_several_targets_reads_them_in_order() {
    let listing = vec![
        ("X.json".to_string(), false),
        ("Sub".to_string(), true),
        ("Y.json".to_string(), false),
    ];
    let targets = directory_targets("nongenout/Game/UI", &listing);
    assert_eq!(targets, strings(&["nongenout/Game/UI/X.json", "nongenout/Game/UI/Y.json"]));
    let mut walk = DependencyWalk::new(&targets);
    assert_eq!(walk.next_target(), Some(("nongenout/Game/UI/X.json".to_string(), 0)));
    walk.visit(r#""/Game/Z.json""#).unwrap();
    assert_eq!(walk.next_target(), Some(("nongenout/Game/Z.json".to_string(), 1)));
    walk.visit("").unwrap();
    assert_eq!(walk.next_target(), Some(("nongenout/Game/UI/Y.json".to_string(), 0)));
    walk.visit("").unwrap();
    assert_eq!(walk.next_target(), None);
    assert_eq!(walk.highest_iteration(), 1);
    assert_eq!(walk.files().len(), 3);
    let at_zero: Vec<String> =
        walk.files().iter().filter(|f| f.iteration == 0).map(|f| f.rootPath.clone()).collect();
    assert_eq!(at_zero, targets);
}

#[test]
fn walk_record_with_missing_group_changes_nothing() {
    let mut walk = DependencyWalk::new(&strings(&["nongenout/A.json"]));
    assert!(matches!(walk.record_visit(&vec![None], &vec![]), Err(WalkError::MissingGroup)));
    assert_eq!(walk.next_target(), Some(("nongenout/A.json".to_string(), 0)));
    assert!(walk.files().is_empty());
}

#[test]
fn rounds_group_by_depth() {
    let files = vec![entry("a", 0, "T"), entry("b", 1, "M"), entry("c", 2, "T"), entry("d", 1, "T")];
    assert_eq!(files_at_iteration(&files, 1), vec![1, 3]);
    assert_eq!(files_at_iteration(&files, 0), vec![0]);
    assert_eq!(files_at_iteration(&files, 5), Vec::<usize>::new());
    assert_eq!(distinct_asset_types(&files, &vec![0, 1, 2, 3]), strings(&["T", "M"]));
}

#[test]
fn asset_types_follow_configured_order() {
    let order = strings(&["Texture2D", "Material", "Blueprint"]);
    assert_eq!(
        order_asset_types(&strings(&["Blueprint", "Texture2D", "Material"]), Some(&order)),
        Some(strings(&["Texture2D", "Material", "Blueprint"]))
    );
    assert_eq!(order_asset_types(&strings(&["Blueprint", "Unknown"]), Some(&order)), None);
    assert_eq!(order_asset_types(&strings(&["Blueprint", "Material"]), None), None);
    // A single class is never compared, so it needs no order.
    assert_eq!(order_asset_types(&strings(&["Unknown"]), None), Some(strings(&["Unknown"])));
    assert_eq!(order_asset_types(&Vec::new(), None), Some(Vec::new()));
}

#[test]
fn asset_paths_for_removal_and_report() {
    assert_eq!(
        asset_path_for_removal("nongenout/Game/UI/W.json", "nongenout"),
        "Content/UI/W.uasset"
    );
    assert_eq!(
        asset_path_for_removal("nongenout\\Game\\UI\\W.json", "nongenout"),
        "/Content/UI\\W.uasset"
    );
    assert_eq!(
        asset_path_for_report("nongenout\\Game\\UI\\W.json", "nongenout"),
        "Content/UI\\W.uasset"
    );
}

#[test]
fn dump_dir_is_cleaned() {
    assert_eq!(clean_dump_dir("\\\\?\\C:\\dump"), "C:/dump");
    assert_eq!(clean_dump_dir("/home/x/dump"), "/home/x/dump");
}

#[test]
fn command_keeps_the_program_whole() {
    let args = generation_arguments_exec("P.uproject", "\"D:/dump\"", "Material", false);
    assert_eq!(
        args,
        strings(&[
            "\"P.uproject\"",
            "-run=AssetGenerator",
            "-DumpDirectory=\"D:/dump\"",
            "-AssetClassWhitelist=\"Material\"",
            "abslog=\"D:/UE5/Projects/PaydayAssetGen/MoolahProject-main/Manual/logs/genlog.txt\"",
            "-stdout",
            "-unattended",
            "-NoRefresh",
        ])
    );
    let ue4cmd = "C:/Program Files/Epic Games/UE_4.27/Engine/Binaries/Win64/UE4Editor-Cmd.exe";
    let (program, args) = generation_command(ue4cmd, "P", "\\\\?\\C:\\dump", "T", true);
    assert_eq!(program, ue4cmd);
    assert_eq!(args.len(), 7);
    assert_eq!(args[0], "\"P\"");
    assert_eq!(args[2], "-DumpDirectory=\"C:/dump\"");
    assert_eq!(args[6], "-unattended");
}

#[test]
fn matching_files_keeps_order() {
    let paths = strings(&["a.json", "b.json", "c.json"]);
    let contents = strings(&["Station", "nothing", "STATION here"]);
    assert_eq!(matching_files(&paths, &contents, "station"), strings(&["a.json", "c.json"]));
}

#[test]
fn search_ignores_case() {
    assert!(matches_ignoring_case("Has SBZCookingStation inside", "sbzcookingstation"));
    assert!(!matches_ignoring_case("nothing here", "station"));
}

// ----- report -----

#[test]
fn report_texts() {
    assert_eq!(
        walk_summary(2, 1),
        "Finished with highest iteration <<green>>2</green>> and <<green>>1</green>> file."
    );
    assert_eq!(
        walk_summary(0, 3),
        "Finished with highest iteration <<green>>0</green>> and <<green>>3</green>> files."
    );
    assert_eq!(round_start(1, 4), "Starting iteration 1 with 4 files. <<grey>>(1 to go)</grey>>");
    assert_eq!(found_types(&strings(&["A", "B"])), "<<grey>>Found Types</grey>>: A, B");
    assert_eq!(
        class_done(1, "Material", 0, 2),
        "<<grey>>Finished with iteration 1 with AssetType</grey>> Material <<grey>>(1/2)</grey>>"
    );
    assert_eq!(failure_report(&Vec::new()), "<<green>>No Fails.</green>>");
    assert_eq!(failure_report(&strings(&["a", "b"])), "<<red>>Failed files</red>>:\na\nb");
    assert_eq!(
        match_report(&strings(&["x.json"])),
        "\nFound matches in the following files:\n<<green>>x.json</green>>"
    );
    assert_eq!(file_list(5), "Got full file list (<<green>>5 files</green>>)");
    assert_eq!(checking_file("a.json", 0, 5), "Checking file <<grey>>a.json</grey>> (<<green>>1/5</green>>)");
}

// ----- config -----

#[test]
fn config_needs_all_paths() {
    let mut fc = full_config();
    fc.dumpdir = None;
    assert!(matches!(config_with_memory(fc, &parseArguments(vec![]), 0), Err(ConfigError::MissingPaths)));
    let mut fc = full_config();
    fc.project = None;
    assert!(matches!(checkConfig(fc, &parseArguments(vec![])), Err(ConfigError::MissingPaths)));
}

#[test]
fn batch_size_from_memory_or_argument() {
    let c = config_with_memory(full_config(), &parseArguments(vec![]), 16_500_000_000).unwrap();
    assert_eq!(c.maxBatchSize, 16 * 90);
    let c = config_with_memory(full_config(), &parseArguments(strings(&["maxBatchSize=12"])), 0).unwrap();
    assert_eq!(c.maxBatchSize, 12);
    assert_eq!(max_batch_size(&parseArguments(strings(&["maxBatchSize=x"])), 0), None);
    // With a path missing the argument is not read at all.
    let mut fc = full_config();
    fc.ue4cmd = None;
    assert!(matches!(
        config_with_memory(fc, &parseArguments(strings(&["maxBatchSize=x"])), 0),
        Err(ConfigError::MissingPaths)
    ));
    assert_eq!(max_batch_size(&parseArguments(vec![]), 999_999_999), Some(0));
    let c = checkConfig(full_config(), &parseArguments(strings(&["maxBatchSize=+7"]))).unwrap();
    assert_eq!(c.maxBatchSize, 7);
    assert_eq!(c.fileConfig.nongendump, Some("nongenout".to_string()));
}

#[test]
fn batch_size_from_this_machine_is_a_multiple_of_ninety() {
    match checkConfig(full_config(), &parseArguments(vec![])) {
        Ok(c) => assert_eq!(c.maxBatchSize % 90, 0),
        Err(e) => assert_eq!(e, ConfigError::MemoryUnknown),
    }
}

// ----- fs -----

fn file(path: &str) -> FsEntry {
    let name = path.rsplit('/').next().unwrap().to_string();
    FsEntry::File { path: path.to_string(), name }
}

fn dir(path: &str, entries: Vec<FsEntry>) -> FsEntry {
    FsEntry::Directory { path: path.to_string(), entries }
}

fn sample_tree() -> Vec<FsEntry> {
    vec![
        dir("r/a", vec![file("r/a/1.json"), file("r/a/2.txt")]),
        dir(
            "r/b",
            vec![
                file("r/b/3.json"),
                dir("r/b/c", vec![file("r/b/c/4.json"), file("r/b/c/.json")]),
                dir("r/b/d", vec![dir("r/b/d/e", vec![file("r/b/d/e/5.json")])]),
            ],
        ),
    ]
}

#[test]
fn tree_counts_files() {
    let tree = sample_tree();
    let info = tree_info(&tree);
    assert_eq!(info.size, 6);
    assert!(info.hasDirs);
    assert!(!info.hasFiles);
    let FsEntry::Directory { entries, .. } = &tree[0] else { panic!() };
    let info = tree_info(entries);
    assert_eq!((info.size, info.hasDirs, info.hasFiles), (2, false, true));
}

#[test]
fn json_files_in_listing_order() {
    assert_eq!(
        getRecursiveJsonFilesFromDir(&sample_tree()),
        strings(&["r/a/1.json", "r/b/3.json", "r/b/c/4.json", "r/b/d/e/5.json"])
    );
}

#[test]
fn batches_split_large_directories() {
    let got: Vec<(String, bool, u64)> = getDirsWithMaxSize(&sample_tree(), 3)
        .iter()
        .map(|d| (d.path.clone(), d.shallow, d.size))
        .collect();
    // Inside r/b the listing meets a file first, so no batch is taken below it.
    assert_eq!(got, vec![("r/a".to_string(), false, 2), ("r/b".to_string(), true, 4)]);
    let tree = vec![dir(
        "r/b",
        vec![
            dir("r/b/c", vec![file("r/b/c/4.json"), file("r/b/c/5.json")]),
            dir("r/b/d", vec![dir("r/b/d/e", vec![file("r/b/d/e/6.json")])]),
            file("r/b/7.json"),
        ],
    )];
    let got: Vec<(String, bool, u64)> = getDirsWithMaxSize(&tree, 3)
        .iter()
        .map(|d| (d.path.clone(), d.shallow, d.size))
        .collect();
    assert_eq!(
        got,
        vec![
            ("r/b".to_string(), true, 4),
            ("r/b/c".to_string(), false, 2),
            ("r/b/d".to_string(), false, 1),
        ]
    );
    let got: Vec<(String, bool, u64)> = getDirsWithMaxSize(&sample_tree(), 100)
        .iter()
        .map(|d| (d.path.clone(), d.shallow, d.size))
        .collect();
    assert_eq!(got, vec![("r/a".to_string(), false, 2), ("r/b".to_string(), false, 4)]);
}

#[test]
fn batches_stop_at_first_non_directory() {
    let tree = vec![dir("r/a", vec![]), file("r/x.json"), dir("r/b", vec![])];
    let got: Vec<String> = getDirsWithMaxSize(&tree, 3).iter().map(|d| d.path.clone()).collect();
    assert_eq!(got, strings(&["r/a"]));
}

fn parts(a: &GenerationAction) -> Vec<String> {
    let mut v: Vec<String> = Vec::new();
    match a {
        GenerationAction::Log(t) => {
            v.push("Log".to_string());
            v.push(t.clone());
        }
        GenerationAction::Say(t) => {
            v.push("Say".to_string());
            v.push(t.clone());
        }
        GenerationAction::CheckPath { path } => {
            v.push("CheckPath".to_string());
            v.push(path.clone());
        }
        GenerationAction::Park { from, to } => {
            v.push("Park".to_string());
            v.push(from.clone());
            v.push(to.clone());
        }
        GenerationAction::CheckAsset { dir, relative } => {
            v.push("CheckAsset".to_string());
            v.push(dir.clone());
            v.push(relative.clone());
        }
        GenerationAction::RemoveAsset { path } => {
            v.push("RemoveAsset".to_string());
            v.push(path.clone());
        }
        GenerationAction::ResolveDumpDir { path } => {
            v.push("ResolveDumpDir".to_string());
            v.push(path.clone());
        }
        GenerationAction::Run { program, args } => {
            v.push("Run".to_string());
            v.push(program.clone());
            v.extend(args.iter().cloned());
        }
        GenerationAction::Restore { from, to } => {
            v.push("Restore".to_string());
            v.push(from.clone());
            v.push(to.clone());
        }
        GenerationAction::Finished { fails } => {
            v.push("Finished".to_string());
            v.extend(fails.iter().cloned());
        }
    }
    v
}

fn step(s: &mut GenerationState, e: GenerationEvent) -> Vec<String> {
    parts(&s.step(e).unwrap())
}

fn asset(path: &str, exists: bool) -> GenerationEvent {
    GenerationEvent::AssetPath { path: path.to_string(), shown: format!("{:?}", path), exists }
}

fn schedule_config(refresh: bool) -> Config {
    let mut fc = full_config();
    fc.refreshExistingAssets = Some(refresh);
    Config { fileConfig: fc, maxBatchSize: 90 }
}

fn run_args(class: &str, refresh: bool) -> Vec<String> {
    let mut v = strings(&[
        "Run",
        "UE4Editor-Cmd",
        "\"Proj.uproject\"",
        "-run=AssetGenerator",
        "-DumpDirectory=\"/abs/dump\"",
    ]);
    v.push(format!("-AssetClassWhitelist=\"{}\"", class));
    v.push("abslog=\"D:/UE5/Projects/PaydayAssetGen/MoolahProject-main/Manual/logs/genlog.txt\"".to_string());
    v.push("-stdout".to_string());
    v.push("-unattended".to_string());
    if !refresh {
        v.push("-NoRefresh".to_string());
    }
    v
}

#[test]
fn schedule_runs_rounds_from_the_deepest_down() {
    let files = vec![entry("nongenout/Game/A.json", 0, "Blueprint"), entry("nongenout/Game/B.json", 1, "Material")];
    let mut s = GenerationState::new(schedule_config(false), files, 1, false);
    assert_eq!(
        step(&mut s, GenerationEvent::Started),
        strings(&["Log", "Finished with highest iteration <<green>>1</green>> and <<green>>2</green>> files."])
    );
    assert_eq!(
        step(&mut s, GenerationEvent::Done),
        strings(&["Log", "Starting iteration 1 with 1 files. <<grey>>(1 to go)</grey>>"])
    );
    assert_eq!(step(&mut s, GenerationEvent::Done), strings(&["CheckPath", "nongenout/Game/B.json"]));
    assert_eq!(
        step(&mut s, GenerationEvent::PathExists(true)),
        strings(&["Park", "nongenout/Game/B.json", "out/Game/B.json"])
    );
    assert_eq!(step(&mut s, GenerationEvent::Done), strings(&["CheckAsset", "Proj", "Content/B.uasset"]));
    // Refreshing is off: nothing is removed.
    assert_eq!(
        step(&mut s, asset("Proj/Content/B.uasset", true)),
        strings(&["Log", "<<grey>>Found Types</grey>>: Material"])
    );
    assert_eq!(step(&mut s, GenerationEvent::Done), strings(&["ResolveDumpDir", "dump"]));
    let announced = step(&mut s, GenerationEvent::DumpDir("/abs/dump".to_string()));
    assert_eq!(announced[0], "Say");
    assert_eq!(
        announced[1],
        format!("Running command: UE4Editor-Cmd - with args: {}", run_args("Material", false)[2..].join(" "))
    );
    assert_eq!(step(&mut s, GenerationEvent::Done), run_args("Material", false));
    assert_eq!(
        step(&mut s, GenerationEvent::CommandFinished { stderr: String::new() }),
        strings(&["Log", "<<grey>>Finished with iteration 1 with AssetType</grey>> Material <<grey>>(1/1)</grey>>"])
    );
    assert_eq!(step(&mut s, GenerationEvent::Done), strings(&["CheckPath", "out/Game/B.json"]));
    assert_eq!(
        step(&mut s, GenerationEvent::PathExists(true)),
        strings(&["Restore", "out/Game/B.json", "nongenout/Game/B.json"])
    );
    assert_eq!(step(&mut s, GenerationEvent::Done), strings(&["CheckAsset", "Proj", "Content/B.uasset"]));
    assert_eq!(
        step(&mut s, asset("Proj/Content/B.uasset", false)),
        strings(&["Log", "Starting iteration 0 with 1 files. <<grey>>(0 to go)</grey>>"])
    );
    assert_eq!(s.fails(), &strings(&["Proj/Content/B.uasset"]));
    assert_eq!(step(&mut s, GenerationEvent::Done), strings(&["CheckPath", "nongenout/Game/A.json"]));
    assert_eq!(
        step(&mut s, GenerationEvent::PathExists(false)),
        strings(&["CheckAsset", "Proj", "Content/A.uasset"])
    );
    assert_eq!(
        step(&mut s, asset("Proj/Content/A.uasset", false)),
        strings(&["Log", "<<grey>>Found Types</grey>>: Blueprint"])
    );
    assert_eq!(step(&mut s, GenerationEvent::Done), strings(&["ResolveDumpDir", "dump"]));
    assert_eq!(step(&mut s, GenerationEvent::DumpDir("/abs/dump".to_string()))[0], "Say");
    assert_eq!(step(&mut s, GenerationEvent::Done), run_args("Blueprint", false));
    assert_eq!(
        step(&mut s, GenerationEvent::CommandFailed { error: "missing".to_string() }),
        strings(&["Log", "<<grey>>Iteration 0 with AssetType Blueprint:</grey>>\n<<red>>missing</red>>"])
    );
    assert_eq!(step(&mut s, GenerationEvent::Done), strings(&["CheckPath", "out/Game/A.json"]));
    assert_eq!(
        step(&mut s, GenerationEvent::PathExists(false)),
        strings(&["CheckAsset", "Proj", "Content/A.uasset"])
    );
    assert_eq!(step(&mut s, asset("Proj/Content/A.uasset", true)), strings(&["Say", "Finished all iterations."]));
    assert_eq!(step(&mut s, GenerationEvent::Done)[0], "Log");
    assert_eq!(step(&mut s, GenerationEvent::Done), strings(&["Finished", "Proj/Content/B.uasset"]));
}

#[test]
fn schedule_removes_existing_assets_when_refreshing() {
    let files = vec![entry("nongenout/Game/A.json", 0, "Blueprint"), entry("nongenout/Game/C.json", 0, "Texture2D")];
    let mut s = GenerationState::new(schedule_config(true), files, 0, false);
    step(&mut s, GenerationEvent::Started);
    step(&mut s, GenerationEvent::Done);
    assert_eq!(step(&mut s, GenerationEvent::Done), strings(&["CheckPath", "nongenout/Game/A.json"]));
    assert_eq!(step(&mut s, GenerationEvent::PathExists(false)), strings(&["CheckPath", "nongenout/Game/C.json"]));
    assert_eq!(
        step(&mut s, GenerationEvent::PathExists(false)),
        strings(&["CheckAsset", "Proj", "Content/A.uasset"])
    );
    assert_eq!(
        step(&mut s, asset("Proj/Content/A.uasset", true)),
        strings(&["RemoveAsset", "Proj/Content/A.uasset"])
    );
    assert_eq!(
        step(&mut s, GenerationEvent::Done),
        strings(&["Log", "<<red>>Removed</red>> \"Proj/Content/A.uasset\""])
    );
    assert_eq!(step(&mut s, GenerationEvent::Done), strings(&["CheckAsset", "Proj", "Content/C.uasset"]));
    assert_eq!(
        step(&mut s, asset("Proj/Content/C.uasset", false)),
        strings(&["Log", "<<red>>Removed</red>> \"Proj/Content/C.uasset\" <<grey>>(did not exist)</grey>>"])
    );
    // The classes run in the configured order.
    assert_eq!(
        step(&mut s, GenerationEvent::Done),
        strings(&["Log", "<<grey>>Found Types</grey>>: Texture2D, Blueprint"])
    );
    step(&mut s, GenerationEvent::Done);
    step(&mut s, GenerationEvent::DumpDir("/abs/dump".to_string()));
    assert_eq!(step(&mut s, GenerationEvent::Done), run_args("Texture2D", true));
    assert_eq!(
        step(&mut s, GenerationEvent::CommandFinished { stderr: "warn".to_string() }),
        strings(&["Say", "<<red>>Texture2D:</red>>\nwarn"])
    );
    assert_eq!(
        step(&mut s, GenerationEvent::Done),
        strings(&["Log", "<<grey>>Finished with iteration 0 with AssetType</grey>> Texture2D <<grey>>(1/2)</grey>>"])
    );
    assert_eq!(step(&mut s, GenerationEvent::Done), strings(&["CheckPath", "out/Game/A.json"]));
    assert_eq!(step(&mut s, GenerationEvent::PathExists(false)), strings(&["CheckPath", "out/Game/C.json"]));
    assert_eq!(step(&mut s, GenerationEvent::PathExists(false)), strings(&["ResolveDumpDir", "dump"]));
}

#[test]
fn schedule_refuses_an_event_out_of_step() {
    let mut s = GenerationState::new(schedule_config(false), Vec::new(), 0, true);
    assert!(matches!(s.step(GenerationEvent::Done), Err(GenerationError::UnexpectedEvent)));
    assert_eq!(step(&mut s, GenerationEvent::Started)[0], "Log");
}

#[test]
fn schedule_needs_the_refresh_setting_and_the_order() {
    let mut fc = full_config();
    fc.refreshExistingAssets = None;
    let files = vec![entry("nongenout/Game/A.json", 0, "Blueprint")];
    let mut s = GenerationState::new(Config { fileConfig: fc, maxBatchSize: 90 }, files, 0, true);
    step(&mut s, GenerationEvent::Started);
    step(&mut s, GenerationEvent::Done);
    step(&mut s, GenerationEvent::Done);
    assert!(matches!(s.step(GenerationEvent::PathExists(false)), Err(GenerationError::MissingRefreshSetting)));

    let mut fc = full_config();
    fc.assetOrder = None;
    let files = vec![entry("nongenout/Game/A.json", 0, "Blueprint"), entry("nongenout/Game/C.json", 0, "Texture2D")];
    let mut s = GenerationState::new(Config { fileConfig: fc, maxBatchSize: 90 }, files, 0, true);
    step(&mut s, GenerationEvent::Started);
    step(&mut s, GenerationEvent::Done);
    step(&mut s, GenerationEvent::Done);
    step(&mut s, GenerationEvent::PathExists(false));
    step(&mut s, GenerationEvent::PathExists(false));
    step(&mut s, asset("Proj/Content/A.uasset", false));
    assert!(matches!(s.step(asset("Proj/Content/C.uasset", false)), Err(GenerationError::AssetOrderIncomplete)));
}

#[test]
fn walk_from_a_given_depth_lists_a_preorder() {
    let mut walk = DependencyWalk::starting_at(&strings(&["nongenout/Game/A.json"]), 3);
    assert_eq!(walk.next_target(), Some(("nongenout/Game/A.json".to_string(), 3)));
    walk.visit(r#"{"AssetClass": "Blueprint", "S": "/Game/A.A", "R1": "/Game/B.B", "R2": "/Game/B.B"}"#)
        .unwrap();
    assert_eq!(walk.next_target(), Some(("nongenout/Game/B.json".to_string(), 4)));
    walk.visit(r#"{"AssetClass": "Texture2D"}"#).unwrap();
    assert_eq!(walk.next_target(), None);
    let got: Vec<(String, u32)> = walk.files().iter().map(|f| (f.rootPath.clone(), f.iteration)).collect();
    assert_eq!(
        got,
        vec![("nongenout/Game/A.json".to_string(), 3), ("nongenout/Game/B.json".to_string(), 4)]
    );
    assert_eq!(walk.highest_iteration(), 4);
}

#[test]
fn schedule_in_silent_mode_prints_less() {
    let files = vec![entry("nongenout/Game/A.json", 0, "Blueprint")];
    let mut s = GenerationState::new(schedule_config(true), files, 0, true);
    step(&mut s, GenerationEvent::Started);
    step(&mut s, GenerationEvent::Done);
    assert_eq!(step(&mut s, GenerationEvent::Done), strings(&["CheckPath", "nongenout/Game/A.json"]));
    assert_eq!(
        step(&mut s, GenerationEvent::PathExists(false)),
        strings(&["CheckAsset", "Proj", "Content/A.uasset"])
    );
    assert_eq!(
        step(&mut s, asset("Proj/Content/A.uasset", true)),
        strings(&["RemoveAsset", "Proj/Content/A.uasset"])
    );
    // No "Removed" line follows.
    assert_eq!(
        step(&mut s, GenerationEvent::Done),
        strings(&["Log", "<<grey>>Found Types</grey>>: Blueprint"])
    );
    assert_eq!(step(&mut s, GenerationEvent::Done), strings(&["ResolveDumpDir", "dump"]));
    // No announcement: the run comes at once.
    assert_eq!(step(&mut s, GenerationEvent::DumpDir("/abs/dump".to_string())), run_args("Blueprint", true));
}

#[test]
fn json_files_of_a_listed_tree_lie_below_it_once_each() {
    let files = getRecursiveJsonFilesFromDir(&sample_tree());
    for (i, f) in files.iter().enumerate() {
        assert!(f.starts_with("r/"));
        for g in &files[i + 1..] {
            assert_ne!(f, g);
        }
    }
}
