//! The generation schedule: after the walk, the rounds from the greatest
//! depth down to zero. In each round the round's dumps are parked, assets
//! that will be generated anew are removed, the generator runs once per asset
//! class in the configured order with the dumps put back after each run, and
//! the generated assets are checked. The schedule decides; the program
//! carries out each action and answers with an event.
use vstd::prelude::*;
use crate::config::Config;
use crate::process::{
    asset_path_for_removal, asset_path_for_report, asset_path_with, cleaned_dump_dir,
    debug_string, depth_indices, distinct_asset_types, files_at_iteration, first_occurrences,
    generation_arguments, generation_command, order_asset_types, ordered_types,
};
use crate::report::{
    class_done, class_done_text, failure_report, failure_report_text, found_types,
    found_types_text, round_start, round_start_text, walk_summary, walk_summary_text,
};
use crate::text::{decimal, decimal_string, join_seq, join_str};
use crate::walk::FileIterationInfo;

verus! {

/// What the program tells the schedule after carrying out an action.
pub enum GenerationEvent {
    /// The schedule is to begin.
    Started,
    /// The action was carried out.
    Done,
    /// Whether the path of a `CheckPath` exists.
    PathExists(bool),
    /// The asset path a `CheckAsset` joined, that path as `{:?}` shows it,
    /// and whether it exists.
    AssetPath { path: String, shown: String, exists: bool },
    /// The canonical form of the dump directory.
    DumpDir(String),
    /// The generator ran; what it wrote to its error stream.
    CommandFinished { stderr: String },
    /// The generator could not be started; why.
    CommandFailed { error: String },
}

/// What the schedule asks the program to do next.
pub enum GenerationAction {
    /// Print the text with its colour tags turned into colours.
    Log(String),
    /// Print the text as it is.
    Say(String),
    /// Tell whether the path exists.
    CheckPath { path: String },
    /// Move a dump aside, making the folders it goes to.
    Park { from: String, to: String },
    /// Join the relative asset path to the directory and tell whether it
    /// exists.
    CheckAsset { dir: String, relative: String },
    /// Delete a generated asset.
    RemoveAsset { path: String },
    /// Tell the canonical form of the dump directory.
    ResolveDumpDir { path: String },
    /// Run the generator.
    Run { program: String, args: Vec<String> },
    /// Move a parked dump back.
    Restore { from: String, to: String },
    /// The schedule is over; these assets were not generated.
    Finished { fails: Vec<String> },
}

/// Why the schedule cannot go on.
#[derive(Debug, Clone, Copy, PartialEq, Eq, Structural)]
pub enum GenerationError {
    /// The event does not answer the last action.
    UnexpectedEvent,
    /// `refreshExistingAssets` is missing from the configuration.
    MissingRefreshSetting,
    /// Two or more asset classes must be ordered and the configured order is
    /// missing or lacks one of them.
    AssetOrderIncomplete,
}

/// Where the schedule stands: which answer it waits for.
#[derive(Debug, Clone, Copy, PartialEq, Eq, Structural)]
pub enum Phase {
    /// Nothing done yet.
    Begin,
    /// The walk's summary was printed.
    Summarised,
    /// The round's opening line was printed.
    RoundStarted,
    /// Waiting to know whether the round's `k`-th dump exists.
    ParkCheck(usize),
    /// The `k`-th dump was parked.
    Parked(usize),
    /// Waiting for the removal path of the `k`-th dump's asset.
    RemoveCheck(usize),
    /// The `k`-th dump's asset was removed.
    Removed(usize),
    /// The removal of the `k`-th dump's asset was reported.
    RemoveLogged(usize),
    /// The round's asset classes were printed.
    TypesLogged,
    /// Waiting for the canonical dump directory for the `t`-th class.
    Resolving(usize),
    /// The command for the `t`-th class was announced.
    Announced(usize),
    /// Waiting for the generator's run for the `t`-th class.
    Running(usize),
    /// The error stream of the `t`-th class's run was printed.
    StderrShown(usize),
    /// The `t`-th class's run was reported.
    RunLogged(usize),
    /// After the `t`-th run, waiting to know whether the `k`-th dump is parked.
    RestoreCheck(usize, usize),
    /// After the `t`-th run, the `k`-th dump was put back.
    Restored(usize, usize),
    /// Waiting for the report path of the `k`-th dump's asset.
    ReportCheck(usize),
    /// The end of the rounds was printed.
    Closing,
    /// The failures were reported.
    Reported,
    /// The schedule is over.
    Over,
}

/// An event as plain values.
pub enum EventView {
    Started,
    Done,
    PathExists(bool),
    AssetPath { path: Seq<char>, shown: Seq<char>, exists: bool },
    DumpDir(Seq<char>),
    CommandFinished { stderr: Seq<char> },
    CommandFailed { error: Seq<char> },
}

/// An action as plain values.
pub enum ActionView {
    Log(Seq<char>),
    Say(Seq<char>),
    CheckPath { path: Seq<char> },
    Park { from: Seq<char>, to: Seq<char> },
    CheckAsset { dir: Seq<char>, relative: Seq<char> },
    RemoveAsset { path: Seq<char> },
    ResolveDumpDir { path: Seq<char> },
    Run { program: Seq<char>, args: Seq<Seq<char>> },
    Restore { from: Seq<char>, to: Seq<char> },
    Finished { fails: Seq<Seq<char>> },
}

impl View for GenerationEvent {
    type V = EventView;

    open spec fn view(&self) -> EventView {
        match self {
            GenerationEvent::Started => EventView::Started,
            GenerationEvent::Done => EventView::Done,
            GenerationEvent::PathExists(b) => EventView::PathExists(*b),
            GenerationEvent::AssetPath { path, shown, exists } => EventView::AssetPath {
                path: path@,
                shown: shown@,
                exists: *exists,
            },
            GenerationEvent::DumpDir(d) => EventView::DumpDir(d@),
            GenerationEvent::CommandFinished { stderr } => EventView::CommandFinished { stderr: stderr@ },
            GenerationEvent::CommandFailed { error } => EventView::CommandFailed { error: error@ },
        }
    }
}

impl View for GenerationAction {
    type V = ActionView;

    open spec fn view(&self) -> ActionView {
        match self {
            GenerationAction::Log(t) => ActionView::Log(t@),
            GenerationAction::Say(t) => ActionView::Say(t@),
            GenerationAction::CheckPath { path } => ActionView::CheckPath { path: path@ },
            GenerationAction::Park { from, to } => ActionView::Park { from: from@, to: to@ },
            GenerationAction::CheckAsset { dir, relative } => ActionView::CheckAsset {
                dir: dir@,
                relative: relative@,
            },
            GenerationAction::RemoveAsset { path } => ActionView::RemoveAsset { path: path@ },
            GenerationAction::ResolveDumpDir { path } => ActionView::ResolveDumpDir { path: path@ },
            GenerationAction::Run { program, args } => ActionView::Run {
                program: program@,
                args: args.deep_view(),
            },
            GenerationAction::Restore { from, to } => ActionView::Restore { from: from@, to: to@ },
            GenerationAction::Finished { fails } => ActionView::Finished { fails: fails.deep_view() },
        }
    }
}

/// The outcome of a step as plain values.
pub open spec fn result_view(r: Result<GenerationAction, GenerationError>) -> Result<ActionView, GenerationError> {
    match r {
        Ok(a) => Ok(a@),
        Err(e) => Err(e),
    }
}

/// The schedule as plain values: the records of the walk, the greatest depth,
/// the settings, whether output is kept short, and where the schedule
/// stands.
pub struct GenView {
    pub files: Seq<FileIterationInfo>,
    pub highest: u32,
    pub ue4cmd: Seq<char>,
    pub project: Seq<char>,
    pub projectdir: Seq<char>,
    pub dumpdir: Seq<char>,
    pub nongendump: Seq<char>,
    pub refresh: Option<bool>,
    pub order: Option<Seq<Seq<char>>>,
    pub silent: bool,
    pub phase: Phase,
    /// The depth of the current round.
    pub round: u32,
    /// The positions of the current round's records.
    pub targets: Seq<usize>,
    /// The current round's asset classes, in generation order.
    pub types: Seq<Seq<char>>,
    /// The asset paths found missing so far, in order.
    pub fails: Seq<Seq<char>>,
    /// How the last removed asset's path is shown.
    pub last_shown: Seq<char>,
    /// The canonical dump directory the run being prepared was given.
    pub canonical: Seq<char>,
    /// The program of the run being prepared.
    pub program: Seq<char>,
    /// The arguments of the run being prepared.
    pub args: Seq<Seq<char>>,
}

/// The dump of the round's `k`-th record.
pub open spec fn root_of(v: GenView, k: int) -> Seq<char> {
    v.files[v.targets[k] as int].rootPath@
}

/// Where the round's `k`-th dump is parked.
pub open spec fn parked_of(v: GenView, k: int) -> Seq<char> {
    v.files[v.targets[k] as int].modPath@
}

/// The asset classes of the current round's records, each once, in the
/// order first met.
pub open spec fn round_classes(v: GenView) -> Seq<Seq<char>> {
    first_occurrences(v.targets.map_values(|i: usize| v.files[i as int].assetType@))
}

/// The line that announces a generator run.
pub open spec fn announce_text(program: Seq<char>, args: Seq<Seq<char>>) -> Seq<char> {
    "Running command: "@ + program + " - with args: "@ + join_seq(args, " "@)
}

/// The lines that show a run's error stream.
pub open spec fn stderr_text(asset_type: Seq<char>, stderr: Seq<char>) -> Seq<char> {
    "<<red>>"@ + asset_type + ":</red>>\n"@ + stderr
}

/// The lines after the generator could not be started.
pub open spec fn run_failed_text(round: u32, asset_type: Seq<char>, error: Seq<char>) -> Seq<char> {
    "<<grey>>Iteration "@ + decimal(round as nat) + " with AssetType "@ + asset_type + ":</grey>>\n<<red>>"@
        + error + "</red>>"@
}

/// The line after an asset was removed.
pub open spec fn removed_text(shown: Seq<char>) -> Seq<char> {
    "<<red>>Removed</red>> "@ + shown
}

/// The line for an asset to be refreshed that did not exist.
pub open spec fn absent_text(shown: Seq<char>) -> Seq<char> {
    "<<red>>Removed</red>> "@ + shown + " <<grey>>(did not exist)</grey>>"@
}

/// The schedule moved to `phase`, asking for `a`.
pub open spec fn emit(v: GenView, phase: Phase, a: ActionView) -> (GenView, Result<ActionView, GenerationError>) {
    (GenView { phase, ..v }, Ok(a))
}

/// The opening of the round at depth `r`.
pub open spec fn start_round(v: GenView, r: u32) -> (GenView, Result<ActionView, GenerationError>) {
    let ts = depth_indices(v.files, r, v.files.len() as int);
    emit(GenView { round: r, targets: ts, ..v }, Phase::RoundStarted, ActionView::Log(round_start_text(r, ts.len())))
}

/// After the current round: the next round down, or the end.
pub open spec fn next_round(v: GenView) -> (GenView, Result<ActionView, GenerationError>) {
    if v.round > 0 {
        start_round(v, (v.round - 1) as u32)
    } else {
        emit(v, Phase::Closing, ActionView::Say("Finished all iterations."@))
    }
}

/// The report checks from the round's `k`-th dump on.
pub open spec fn next_check(v: GenView, k: int) -> (GenView, Result<ActionView, GenerationError>) {
    if k < v.targets.len() {
        emit(v, Phase::ReportCheck(k as usize), ActionView::CheckAsset {
            dir: v.projectdir,
            relative: asset_path_with(root_of(v, k), v.nongendump, "Content/"@),
        })
    } else {
        next_round(v)
    }
}

/// The runs from the round's `t`-th asset class on.
pub open spec fn next_type(v: GenView, t: int) -> (GenView, Result<ActionView, GenerationError>) {
    if t < v.types.len() {
        emit(v, Phase::Resolving(t as usize), ActionView::ResolveDumpDir { path: v.dumpdir })
    } else {
        next_check(v, 0)
    }
}

/// After the `t`-th run, the restore checks from the `k`-th dump on.
pub open spec fn next_restore(v: GenView, t: int, k: int) -> (GenView, Result<ActionView, GenerationError>) {
    if k < v.targets.len() {
        emit(v, Phase::RestoreCheck(t as usize, k as usize), ActionView::CheckPath { path: parked_of(v, k) })
    } else {
        next_type(v, t + 1)
    }
}

/// The round's asset classes, ordered, and their line.
pub open spec fn next_types(v: GenView) -> (GenView, Result<ActionView, GenerationError>) {
    match ordered_types(round_classes(v), v.order) {
        Some(t) => emit(GenView { types: t, ..v }, Phase::TypesLogged, ActionView::Log(found_types_text(t))),
        None => (v, Err(GenerationError::AssetOrderIncomplete)),
    }
}

/// The removal checks from the round's `k`-th dump on.
pub open spec fn next_remove(v: GenView, k: int) -> (GenView, Result<ActionView, GenerationError>) {
    if k < v.targets.len() {
        if v.refresh is None {
            (v, Err(GenerationError::MissingRefreshSetting))
        } else {
            emit(v, Phase::RemoveCheck(k as usize), ActionView::CheckAsset {
                dir: v.projectdir,
                relative: asset_path_with(root_of(v, k), v.nongendump, "/Content/"@),
            })
        }
    } else {
        next_types(v)
    }
}

/// The parking checks from the round's `k`-th dump on.
pub open spec fn next_park(v: GenView, k: int) -> (GenView, Result<ActionView, GenerationError>) {
    if k < v.targets.len() {
        emit(v, Phase::ParkCheck(k as usize), ActionView::CheckPath { path: root_of(v, k) })
    } else {
        next_remove(v, 0)
    }
}

/// What the removal path of the round's `k`-th asset leads to: the asset is
/// deleted where it exists and assets are refreshed; where refreshed assets
/// are wanted and it does not exist, that is reported unless output is kept
/// short.
pub open spec fn removal(v: GenView, k: int, path: Seq<char>, shown: Seq<char>, exists: bool) -> (GenView, Result<ActionView, GenerationError>) {
    match v.refresh {
        None => (v, Err(GenerationError::MissingRefreshSetting)),
        Some(r) => {
            if exists && r {
                emit(GenView { last_shown: shown, ..v }, Phase::Removed(k as usize), ActionView::RemoveAsset { path })
            } else if r && !v.silent {
                emit(v, Phase::RemoveLogged(k as usize), ActionView::Log(absent_text(shown)))
            } else {
                next_remove(v, k + 1)
            }
        },
    }
}

/// The generator run for the round's `t`-th asset class, once the dump
/// directory's canonical form is known; announced first unless output is
/// kept short.
pub open spec fn command_ready(v: GenView, t: int, canonical: Seq<char>) -> (GenView, Result<ActionView, GenerationError>) {
    match v.refresh {
        None => (v, Err(GenerationError::MissingRefreshSetting)),
        Some(r) => {
            let args = generation_arguments(v.project, debug_string(cleaned_dump_dir(canonical)), v.types[t], r);
            let v2 = GenView { canonical, program: v.ue4cmd, args, ..v };
            if !v.silent {
                emit(v2, Phase::Announced(t as usize), ActionView::Say(announce_text(v.ue4cmd, args)))
            } else {
                emit(v2, Phase::Running(t as usize), ActionView::Run { program: v.ue4cmd, args })
            }
        },
    }
}

/// The line after the round's `t`-th run.
pub open spec fn run_done(v: GenView, t: int) -> (GenView, Result<ActionView, GenerationError>) {
    emit(v, Phase::RunLogged(t as usize), ActionView::Log(class_done_text(v.round, v.types[t], t as nat, v.types.len())))
}

/// One step of the schedule: the event answers the last action; the result
/// is where the schedule then stands and the next action, or why it cannot
/// go on. An event that does not answer the last action changes nothing.
pub open spec fn generation_step(v: GenView, e: EventView) -> (GenView, Result<ActionView, GenerationError>) {
    let unexpected = (v, Err(GenerationError::UnexpectedEvent));
    match v.phase {
        Phase::Begin => match e {
            EventView::Started => emit(v, Phase::Summarised, ActionView::Log(walk_summary_text(v.highest, v.files.len()))),
            _ => unexpected,
        },
        Phase::Summarised => match e {
            EventView::Done => start_round(v, v.highest),
            _ => unexpected,
        },
        Phase::RoundStarted => match e {
            EventView::Done => next_park(v, 0),
            _ => unexpected,
        },
        Phase::ParkCheck(k) => match e {
            EventView::PathExists(b) => if b {
                emit(v, Phase::Parked(k), ActionView::Park { from: root_of(v, k as int), to: parked_of(v, k as int) })
            } else {
                next_park(v, k + 1)
            },
            _ => unexpected,
        },
        Phase::Parked(k) => match e {
            EventView::Done => next_park(v, k + 1),
            _ => unexpected,
        },
        Phase::RemoveCheck(k) => match e {
            EventView::AssetPath { path, shown, exists } => removal(v, k as int, path, shown, exists),
            _ => unexpected,
        },
        Phase::Removed(k) => match e {
            EventView::Done => if !v.silent {
                emit(v, Phase::RemoveLogged(k), ActionView::Log(removed_text(v.last_shown)))
            } else {
                next_remove(v, k + 1)
            },
            _ => unexpected,
        },
        Phase::RemoveLogged(k) => match e {
            EventView::Done => next_remove(v, k + 1),
            _ => unexpected,
        },
        Phase::TypesLogged => match e {
            EventView::Done => next_type(v, 0),
            _ => unexpected,
        },
        Phase::Resolving(t) => match e {
            EventView::DumpDir(c) => command_ready(v, t as int, c),
            _ => unexpected,
        },
        Phase::Announced(t) => match e {
            EventView::Done => emit(v, Phase::Running(t), ActionView::Run { program: v.program, args: v.args }),
            _ => unexpected,
        },
        Phase::Running(t) => match e {
            EventView::CommandFinished { stderr } => if stderr.len() > 0 {
                emit(v, Phase::StderrShown(t), ActionView::Say(stderr_text(v.types[t as int], stderr)))
            } else {
                run_done(v, t as int)
            },
            EventView::CommandFailed { error } => emit(v, Phase::RunLogged(t), ActionView::Log(
                run_failed_text(v.round, v.types[t as int], error),
            )),
            _ => unexpected,
        },
        Phase::StderrShown(t) => match e {
            EventView::Done => run_done(v, t as int),
            _ => unexpected,
        },
        Phase::RunLogged(t) => match e {
            EventView::Done => next_restore(v, t as int, 0),
            _ => unexpected,
        },
        Phase::RestoreCheck(t, k) => match e {
            EventView::PathExists(b) => if b {
                emit(v, Phase::Restored(t, k), ActionView::Restore { from: parked_of(v, k as int), to: root_of(v, k as int) })
            } else {
                next_restore(v, t as int, k + 1)
            },
            _ => unexpected,
        },
        Phase::Restored(t, k) => match e {
            EventView::Done => next_restore(v, t as int, k + 1),
            _ => unexpected,
        },
        Phase::ReportCheck(k) => match e {
            EventView::AssetPath { path, shown, exists } => next_check(
                if exists { v } else { GenView { fails: v.fails.push(path), ..v } },
                k + 1,
            ),
            _ => unexpected,
        },
        Phase::Closing => match e {
            EventView::Done => emit(v, Phase::Reported, ActionView::Log(failure_report_text(v.fails))),
            _ => unexpected,
        },
        Phase::Reported => match e {
            EventView::Done => emit(v, Phase::Over, ActionView::Finished { fails: v.fails }),
            _ => unexpected,
        },
        Phase::Over => emit(v, Phase::Over, ActionView::Finished { fails: v.fails }),
    }
}

/// The phases in which the round's asset classes are known.
pub open spec fn classes_known(p: Phase) -> bool {
    match p {
        Phase::TypesLogged | Phase::Resolving(_) | Phase::Announced(_) | Phase::Running(_)
        | Phase::StderrShown(_) | Phase::RunLogged(_) | Phase::RestoreCheck(_, _)
        | Phase::Restored(_, _) | Phase::ReportCheck(_) => true,
        _ => false,
    }
}

/// The schedule's invariant: the round's positions are records; the position
/// or class a phase waits on exists; an announced run is the generator with
/// the arguments for its class; before the first round the current depth is
/// the greatest; once the classes are known they are the round's classes in
/// generation order; once a round is open its positions are those of the
/// records at its depth, which is at most the greatest; and an asset is
/// reported removed only where the refresh setting is given.
pub open spec fn schedule_wf(v: GenView) -> bool {
    &&& forall|k: int| 0 <= k < v.targets.len() ==> (#[trigger] v.targets[k]) < v.files.len()
    &&& match v.phase {
        Phase::ParkCheck(k) | Phase::Parked(k) | Phase::RemoveCheck(k) | Phase::Removed(k)
        | Phase::RemoveLogged(k) | Phase::ReportCheck(k) => k < v.targets.len(),
        Phase::Announced(t) => {
            &&& t < v.types.len()
            &&& v.program == v.ue4cmd
            &&& v.refresh is Some
            &&& v.args == generation_arguments(
                v.project,
                debug_string(cleaned_dump_dir(v.canonical)),
                v.types[t as int],
                v.refresh->0,
            )
        },
        Phase::Resolving(t) | Phase::Running(t) | Phase::StderrShown(t) | Phase::RunLogged(t) => t < v.types.len(),
        Phase::RestoreCheck(t, k) | Phase::Restored(t, k) => t < v.types.len() && k < v.targets.len(),
        Phase::Begin | Phase::Summarised => v.round == v.highest,
        _ => true,
    }
    &&& classes_known(v.phase) ==> ordered_types(round_classes(v), v.order) == Some(v.types)
    &&& v.round <= v.highest
    &&& (v.phase is Removed || v.phase is RemoveLogged) ==> v.refresh is Some
    &&& !(v.phase is Begin || v.phase is Summarised) ==> v.targets == depth_indices(
        v.files,
        v.round,
        v.files.len() as int,
    )
}

/// The asset classes of the records at depth `d`, each once, in the order
/// first met.
pub open spec fn classes_at_depth(files: Seq<FileIterationInfo>, d: u32) -> Seq<Seq<char>> {
    first_occurrences(depth_indices(files, d, files.len() as int).map_values(|i: usize| files[i as int].assetType@))
}

/// Every depth from the greatest down to zero has classes that the order
/// can sort.
pub open spec fn every_round_ordered(files: Seq<FileIterationInfo>, highest: u32, order: Option<Seq<Seq<char>>>) -> bool {
    forall|d: u32| d <= highest ==> (#[trigger] ordered_types(classes_at_depth(files, d), order)) is Some
}

/// The settings fail the schedule where they would first be needed, and
/// only there: a missing `refreshExistingAssets` stops it at the first
/// removal check of a round with dumps, and an order that cannot sort a
/// round's classes stops it when that round's classes are listed; a failed
/// step changes nothing. With the setting given and every round's classes
/// sortable, neither failure comes.
pub proof fn law_setting_failures(v: GenView, e: EventView)
    requires
        schedule_wf(v),
    ensures
        ({
            let (v2, r) = generation_step(v, e);
            &&& r == Err::<ActionView, GenerationError>(GenerationError::MissingRefreshSetting) ==> {
                &&& v.refresh is None
                &&& v.targets.len() > 0
                &&& v2 == v
            }
            &&& r == Err::<ActionView, GenerationError>(GenerationError::AssetOrderIncomplete) ==> {
                &&& ordered_types(round_classes(v), v.order) is None
                &&& v2 == v
            }
            &&& (v.refresh is Some && every_round_ordered(v.files, v.highest, v.order)) ==> {
                &&& r != Err::<ActionView, GenerationError>(GenerationError::MissingRefreshSetting)
                &&& r != Err::<ActionView, GenerationError>(GenerationError::AssetOrderIncomplete)
            }
        }),
{
    law_step_keeps_wf(v, e);
    if classes_known(v.phase) && v.targets.len() == 0 {
        let m = v.targets.map_values(|i: usize| v.files[i as int].assetType@);
        assert(m =~= Seq::<Seq<char>>::empty());
        assert(first_occurrences(m) =~= Seq::<Seq<char>>::empty());
    }
    if !(v.phase is Begin || v.phase is Summarised) {
        assert(round_classes(v) == classes_at_depth(v.files, v.round));
        if every_round_ordered(v.files, v.highest, v.order) {
            assert(ordered_types(classes_at_depth(v.files, v.round), v.order) is Some);
        }
    }
}

/// Silent mode only prints less. A silent schedule and a talkative one that
/// stand at the same place with the same settings, given the same event,
/// either take the same step, or the talkative one first prints one line
/// (announcing a run, or reporting an asset removed or absent) and, once
/// that is done, gives what the silent one gave. Where no failure comes they
/// then stand at the same place again.
pub proof fn law_silent_prints_less(l: GenView, e: EventView)
    requires
        schedule_wf(l),
        !l.silent,
    ensures
        ({
            let q = GenView { silent: true, ..l };
            let (q2, rq) = generation_step(q, e);
            let (l2, rl) = generation_step(l, e);
            ||| rl == rq && q2 == GenView { silent: true, ..l2 }
            ||| {
                &&& (rl matches Ok(ActionView::Say(_)) || rl matches Ok(ActionView::Log(_)))
                &&& generation_step(l2, EventView::Done).1 == rq
                &&& rq is Ok ==> q2 == GenView { silent: true, ..generation_step(l2, EventView::Done).0 }
            }
        }),
{
}

/// How many rounds are left, counting the one under way; the rounds'
/// opening counts one more and the closing lines none.
pub open spec fn rounds_left(v: GenView) -> int {
    match v.phase {
        Phase::Begin | Phase::Summarised => v.highest + 2,
        Phase::Closing | Phase::Reported | Phase::Over => 0,
        _ => v.round + 1,
    }
}

/// The stage of the round (or of the opening or closing), counting down.
pub open spec fn stage_left(v: GenView) -> int {
    match v.phase {
        Phase::Begin => 1,
        Phase::Summarised => 0,
        Phase::RoundStarted => 10,
        Phase::ParkCheck(_) | Phase::Parked(_) => 9,
        Phase::RemoveCheck(_) | Phase::Removed(_) | Phase::RemoveLogged(_) => 8,
        Phase::TypesLogged => 7,
        Phase::Resolving(_) | Phase::Announced(_) | Phase::Running(_) | Phase::StderrShown(_)
        | Phase::RunLogged(_) | Phase::RestoreCheck(_, _) | Phase::Restored(_, _) => 6,
        Phase::ReportCheck(_) => 5,
        Phase::Closing => 2,
        Phase::Reported => 1,
        Phase::Over => 0,
    }
}

/// The dumps, or the asset classes, left in the stage.
pub open spec fn items_left(v: GenView) -> int {
    match v.phase {
        Phase::ParkCheck(k) | Phase::Parked(k) | Phase::RemoveCheck(k) | Phase::Removed(k)
        | Phase::RemoveLogged(k) | Phase::ReportCheck(k) => v.targets.len() - k,
        Phase::Resolving(t) | Phase::Announced(t) | Phase::Running(t) | Phase::StderrShown(t)
        | Phase::RunLogged(t) | Phase::RestoreCheck(t, _) | Phase::Restored(t, _) => v.types.len() - t,
        _ => 0,
    }
}

/// The steps left for the current dump, or the current class's run.
pub open spec fn steps_left(v: GenView) -> int {
    match v.phase {
        Phase::ParkCheck(_) => 1,
        Phase::RemoveCheck(_) => 2,
        Phase::Removed(_) => 1,
        Phase::Resolving(_) => 6,
        Phase::Announced(_) => 5,
        Phase::Running(_) => 4,
        Phase::StderrShown(_) => 3,
        Phase::RunLogged(_) => 2,
        Phase::RestoreCheck(_, _) | Phase::Restored(_, _) => 1,
        _ => 0,
    }
}

/// The restore steps left after the current class's run.
pub open spec fn restores_left(v: GenView) -> int {
    match v.phase {
        Phase::RestoreCheck(_, k) => 2 * (v.targets.len() - k),
        Phase::Restored(_, k) => 2 * (v.targets.len() - k) - 1,
        _ => 0,
    }
}

/// `v2` stands nearer the end than `v`: the counts below fall in the order
/// of the words.
pub open spec fn ranked_down(v: GenView, v2: GenView) -> bool {
    decreases_to!(rounds_left(v), stage_left(v), items_left(v), steps_left(v), restores_left(v)
        => rounds_left(v2), stage_left(v2), items_left(v2), steps_left(v2), restores_left(v2))
}

/// The schedule always comes to its end: every step that the event answers
/// and that is not past the end lowers, in the order of the words, the
/// rounds left, the stage, the dumps or classes left, the steps for the
/// current one and the restores left. So a schedule answered with the
/// events it waits for reaches `Finished` unless a setting fails it. (The
/// dumps and classes of a schedule are held in vectors, so they are
/// countable by `usize`.)
pub proof fn law_schedule_ends(v: GenView, e: EventView)
    requires
        schedule_wf(v),
        v.targets.len() <= usize::MAX,
        v.types.len() <= usize::MAX,
        generation_step(v, e).1 is Ok,
        !(v.phase is Over),
    ensures
        ranked_down(v, generation_step(v, e).0),
{
    law_step_keeps_wf(v, e);
}

/// Rounds go from the greatest depth down, one depth at a time: no step
/// raises the current depth; the first round is at the greatest depth; a step
/// that lowers it opens the round one depth below with that depth's records
/// and announces it; and the rounds close only after the round at depth zero.
pub proof fn law_rounds_descend(v: GenView, e: EventView)
    requires
        schedule_wf(v),
    ensures
        ({
            let (v2, r) = generation_step(v, e);
            &&& v2.round <= v.round
            &&& v2.round < v.round ==> {
                &&& v2.round == v.round - 1
                &&& v2.phase == Phase::RoundStarted
                &&& v2.targets == depth_indices(v.files, v2.round, v.files.len() as int)
                &&& r == Ok::<ActionView, GenerationError>(ActionView::Log(round_start_text(v2.round, v2.targets.len())))
            }
            &&& (v.phase == Phase::Summarised && e == EventView::Done) ==> {
                &&& v2.round == v.highest
                &&& v2.phase == Phase::RoundStarted
                &&& v2.targets == depth_indices(v.files, v.highest, v.files.len() as int)
            }
            &&& (v2.phase == Phase::Closing && v.phase != Phase::Closing) ==> v.round == 0
        }),
{
}

/// Within a round the generator runs once per asset class, in the order
/// that the configuration gives: the classes are the round's classes ordered
/// by the configured order; the runs for them begin one after the other from
/// the first; and each run is the configured generator with the arguments
/// for its class and the canonical dump directory the program reported.
/// (The classes of a schedule are held in a vector, so they are countable by
/// `usize`.)
pub proof fn law_runs_follow_order(v: GenView, e: EventView)
    requires
        schedule_wf(v),
        v.types.len() <= usize::MAX,
    ensures
        ({
            let (v2, r) = generation_step(v, e);
            &&& classes_known(v2.phase) ==> ordered_types(round_classes(v2), v2.order) == Some(v2.types)
            &&& v2.phase matches Phase::Resolving(t) ==> (v.phase != v2.phase ==> {
                ||| t == 0 && v.phase == Phase::TypesLogged
                ||| t > 0 && v.phase == Phase::RunLogged((t - 1) as usize)
                ||| t > 0 && (v.phase matches Phase::RestoreCheck(s, _) && s == t - 1)
                ||| t > 0 && (v.phase matches Phase::Restored(s, _) && s == t - 1)
            })
            &&& r matches Ok(ActionView::Run { program, args }) ==> {
                &&& v2.phase matches Phase::Running(t)
                &&& t < v2.types.len()
                &&& v.refresh is Some
                &&& program == v.ue4cmd
                &&& args == generation_arguments(
                    v.project,
                    debug_string(cleaned_dump_dir(v2.canonical)),
                    v2.types[t as int],
                    v.refresh->0,
                )
            }
        }),
{
    law_step_keeps_wf(v, e);
}

/// With `refreshExistingAssets` off no asset is removed and every run asks
/// the generator not to refresh; with it on, the asset of a dump is removed
/// exactly when it exists.
pub proof fn law_no_refresh(v: GenView, e: EventView)
    requires
        schedule_wf(v),
    ensures
        ({
            let (v2, r) = generation_step(v, e);
            &&& v.refresh == Some(false) ==> {
                &&& !(r matches Ok(ActionView::RemoveAsset { .. }))
                &&& r matches Ok(ActionView::Run { args, .. }) ==> args.len() > 0 && args.last() == "-NoRefresh"@
            }
            &&& (v.phase is RemoveCheck && v.refresh == Some(true)) ==> (e matches EventView::AssetPath { path, exists, .. } ==> (
                (r == Ok::<ActionView, GenerationError>(ActionView::RemoveAsset { path })) <==> exists))
        }),
{
}

/// Every dump is parked before the round's runs and put back after each run:
/// the parking checks and, after each run, the restore checks visit the
/// round's dumps in order; a dump that is there is moved from its place to
/// its parked place, and a parked dump that is there is moved back.
pub proof fn law_dumps_parked_and_restored(v: GenView, e: EventView)
    requires
        schedule_wf(v),
    ensures
        ({
            let (v2, r) = generation_step(v, e);
            let n = v.targets.len();
            &&& (v.phase == Phase::RoundStarted && e == EventView::Done && n > 0) ==> {
                &&& v2.phase == Phase::ParkCheck(0)
                &&& r == Ok::<ActionView, GenerationError>(ActionView::CheckPath { path: root_of(v, 0) })
            }
            &&& v.phase matches Phase::ParkCheck(k) ==> (e == EventView::PathExists(true) ==> {
                &&& v2.phase == Phase::Parked(k)
                &&& r == Ok::<ActionView, GenerationError>(ActionView::Park { from: root_of(v, k as int), to: parked_of(v, k as int) })
            })
            &&& v.phase matches Phase::ParkCheck(k) ==> ((e == EventView::PathExists(false) && k + 1 < n) ==> {
                &&& v2.phase == Phase::ParkCheck((k + 1) as usize)
                &&& r == Ok::<ActionView, GenerationError>(ActionView::CheckPath { path: root_of(v, k + 1) })
            })
            &&& v.phase matches Phase::Parked(k) ==> ((e == EventView::Done && k + 1 < n) ==> {
                &&& v2.phase == Phase::ParkCheck((k + 1) as usize)
                &&& r == Ok::<ActionView, GenerationError>(ActionView::CheckPath { path: root_of(v, k + 1) })
            })
            &&& v.phase matches Phase::RunLogged(t) ==> ((e == EventView::Done && n > 0) ==> {
                &&& v2.phase == Phase::RestoreCheck(t, 0)
                &&& r == Ok::<ActionView, GenerationError>(ActionView::CheckPath { path: parked_of(v, 0) })
            })
            &&& v.phase matches Phase::RestoreCheck(t, k) ==> (e == EventView::PathExists(true) ==> {
                &&& v2.phase == Phase::Restored(t, k)
                &&& r == Ok::<ActionView, GenerationError>(ActionView::Restore { from: parked_of(v, k as int), to: root_of(v, k as int) })
            })
            &&& v.phase matches Phase::RestoreCheck(t, k) ==> ((e == EventView::PathExists(false) && k + 1 < n) ==> {
                &&& v2.phase == Phase::RestoreCheck(t, (k + 1) as usize)
                &&& r == Ok::<ActionView, GenerationError>(ActionView::CheckPath { path: parked_of(v, k + 1) })
            })
            &&& v.phase matches Phase::Restored(t, k) ==> ((e == EventView::Done && k + 1 < n) ==> {
                &&& v2.phase == Phase::RestoreCheck(t, (k + 1) as usize)
                &&& r == Ok::<ActionView, GenerationError>(ActionView::CheckPath { path: parked_of(v, k + 1) })
            })
        }),
{
}

/// The failures are the generated assets found missing, in the order found:
/// only a report check that finds its asset missing adds its path, the
/// report checks visit the round's dumps in order, and the end hands over
/// the failures collected.
pub proof fn law_fails(v: GenView, e: EventView)
    requires
        schedule_wf(v),
    ensures
        ({
            let (v2, r) = generation_step(v, e);
            let n = v.targets.len();
            &&& v.phase matches Phase::ReportCheck(k) ==> (e matches EventView::AssetPath { path, exists, .. } ==> {
                &&& v2.fails == (if exists { v.fails } else { v.fails.push(path) })
                &&& k + 1 < n ==> {
                    &&& v2.phase == Phase::ReportCheck((k + 1) as usize)
                    &&& r == Ok::<ActionView, GenerationError>(ActionView::CheckAsset {
                        dir: v.projectdir,
                        relative: asset_path_with(root_of(v, k + 1), v.nongendump, "Content/"@),
                    })
                }
            })
            &&& !(v.phase is ReportCheck) ==> v2.fails == v.fails
            &&& r matches Ok(ActionView::Finished { fails }) ==> fails == v.fails
        }),
{
}

proof fn lemma_depth_indices_bound(files: Seq<FileIterationInfo>, r: u32, n: int)
    requires
        0 <= n <= files.len(),
    ensures
        forall|k: int| 0 <= k < depth_indices(files, r, n).len() ==> (#[trigger] depth_indices(files, r, n)[k]) < n,
    decreases n,
{
    if n > 0 {
        lemma_depth_indices_bound(files, r, n - 1);
        let rest = depth_indices(files, r, n - 1);
        assert forall|k: int| 0 <= k < depth_indices(files, r, n).len() implies (#[trigger] depth_indices(files, r, n)[k]) < n by {
            if k < rest.len() {
                assert(depth_indices(files, r, n)[k] == rest[k]);
            }
        }
    }
}

/// Every step keeps the schedule's invariant.
pub proof fn law_step_keeps_wf(v: GenView, e: EventView)
    requires
        schedule_wf(v),
    ensures
        schedule_wf(generation_step(v, e).0),
{
    lemma_depth_indices_bound(v.files, v.highest, v.files.len() as int);
    if v.round > 0 {
        lemma_depth_indices_bound(v.files, (v.round - 1) as u32, v.files.len() as int);
    }
}

/// Clones the strings.
fn clone_strings(v: &Vec<String>) -> (res: Vec<String>)
    ensures
        res.deep_view() == v.deep_view(),
{
    let mut res: Vec<String> = Vec::new();
    let mut i: usize = 0;
    while i < v.len()
        invariant
            i <= v.len(),
            res.deep_view() == v.deep_view().take(i as int),
        decreases v.len() - i,
    {
        let ghost before = res.deep_view();
        let c = v[i].clone();
        res.push(c);
        assert(res.deep_view() == before.push(v[i as int]@));
        assert(res.deep_view() =~= v.deep_view().take(i + 1));
        i = i + 1;
    }
    assert(v.deep_view().take(v.len() as int) == v.deep_view());
    res
}

/// The generation schedule for the records of a finished walk.
pub struct GenerationState {
    files: Vec<FileIterationInfo>,
    highest: u32,
    ue4cmd: String,
    project: String,
    projectdir: String,
    dumpdir: String,
    nongendump: String,
    refresh: Option<bool>,
    order: Option<Vec<String>>,
    silent: bool,
    phase: Phase,
    round: u32,
    targets: Vec<usize>,
    types: Vec<String>,
    fails: Vec<String>,
    last_shown: String,
    canonical: String,
    program: String,
    args: Vec<String>,
}

impl View for GenerationState {
    type V = GenView;

    closed spec fn view(&self) -> GenView {
        GenView {
            files: self.files@,
            highest: self.highest,
            ue4cmd: self.ue4cmd@,
            project: self.project@,
            projectdir: self.projectdir@,
            dumpdir: self.dumpdir@,
            nongendump: self.nongendump@,
            refresh: self.refresh,
            order: match self.order {
                Some(o) => Some(o.deep_view()),
                None => None,
            },
            silent: self.silent,
            phase: self.phase,
            round: self.round,
            targets: self.targets@,
            types: self.types.deep_view(),
            fails: self.fails.deep_view(),
            last_shown: self.last_shown@,
            canonical: self.canonical@,
            program: self.program@,
            args: self.args.deep_view(),
        }
    }
}

impl GenerationState {
    /// The schedule's invariant.
    pub open spec fn wf(&self) -> bool {
        schedule_wf(self@)
    }

    /// The schedule for the records of a walk and its greatest depth, with
    /// the settings of a checked configuration: nothing done yet, the current
    /// depth the greatest.
    pub fn new(config: Config, files: Vec<FileIterationInfo>, highest: u32, silent: bool) -> (s: GenerationState)
        requires
            config.fileConfig.paths_given(),
        ensures
            s.wf(),
            s@.files == files@,
            s@.highest == highest,
            s@.ue4cmd == config.fileConfig.ue4cmd->0@,
            s@.project == config.fileConfig.project->0@,
            s@.projectdir == config.fileConfig.projectdir->0@,
            s@.dumpdir == config.fileConfig.dumpdir->0@,
            s@.nongendump == config.fileConfig.nongendump->0@,
            s@.refresh == config.fileConfig.refreshExistingAssets,
            s@.order == match config.fileConfig.assetOrder {
                Some(o) => Some(o.deep_view()),
                None => None,
            },
            s@.silent == silent,
            s@.phase == Phase::Begin,
            s@.round == highest,
            s@.targets.len() == 0,
            s@.fails.len() == 0,
    {
        let fc = config.fileConfig;
        let s = GenerationState {
            files,
            highest,
            ue4cmd: fc.ue4cmd.unwrap(),
            project: fc.project.unwrap(),
            projectdir: fc.projectdir.unwrap(),
            dumpdir: fc.dumpdir.unwrap(),
            nongendump: fc.nongendump.unwrap(),
            refresh: fc.refreshExistingAssets,
            order: fc.assetOrder,
            silent,
            phase: Phase::Begin,
            round: highest,
            targets: Vec::new(),
            types: Vec::new(),
            fails: Vec::new(),
            last_shown: String::new(),
            canonical: String::new(),
            program: String::new(),
            args: Vec::new(),
        };
        assert(s@.fails =~= Seq::<Seq<char>>::empty());
        s
    }

    /// The assets found missing so far.
    pub fn fails(&self) -> (f: &Vec<String>)
        ensures
            f.deep_view() == self@.fails,
    {
        &self.fails
    }

    fn start_round(&mut self, r: u32) -> (a: Result<GenerationAction, GenerationError>)
        requires
            forall|k: int| 0 <= k < old(self).targets@.len() ==> (#[trigger] old(self).targets@[k]) < old(self).files@.len(),
        ensures
            forall|k: int| 0 <= k < final(self).targets@.len() ==> (#[trigger] final(self).targets@[k]) < final(self).files@.len(),
            (final(self)@, result_view(a)) == start_round(old(self)@, r),
    {
        let ts = files_at_iteration(&self.files, r);
        let line = round_start(r, ts.len());
        self.round = r;
        self.targets = ts;
        self.phase = Phase::RoundStarted;
        Ok(GenerationAction::Log(line))
    }

    fn next_round(&mut self) -> (a: Result<GenerationAction, GenerationError>)
        requires
            forall|k: int| 0 <= k < old(self).targets@.len() ==> (#[trigger] old(self).targets@[k]) < old(self).files@.len(),
        ensures
            forall|k: int| 0 <= k < final(self).targets@.len() ==> (#[trigger] final(self).targets@[k]) < final(self).files@.len(),
            (final(self)@, result_view(a)) == next_round(old(self)@),
    {
        if self.round > 0 {
            self.start_round(self.round - 1)
        } else {
            self.phase = Phase::Closing;
            Ok(GenerationAction::Say(String::from_str("Finished all iterations.")))
        }
    }

    fn next_check(&mut self, k: usize) -> (a: Result<GenerationAction, GenerationError>)
        requires
            k <= old(self).targets@.len(),
            forall|k: int| 0 <= k < old(self).targets@.len() ==> (#[trigger] old(self).targets@[k]) < old(self).files@.len(),
        ensures
            forall|k: int| 0 <= k < final(self).targets@.len() ==> (#[trigger] final(self).targets@[k]) < final(self).files@.len(),
            (final(self)@, result_view(a)) == next_check(old(self)@, k as int),
    {
        if k < self.targets.len() {
            let rel = asset_path_for_report(self.files[self.targets[k]].rootPath.as_str(), self.nongendump.as_str());
            self.phase = Phase::ReportCheck(k);
            Ok(GenerationAction::CheckAsset { dir: self.projectdir.clone(), relative: rel })
        } else {
            self.next_round()
        }
    }

    fn next_type(&mut self, t: usize) -> (a: Result<GenerationAction, GenerationError>)
        requires
            t <= old(self).types@.len(),
            forall|k: int| 0 <= k < old(self).targets@.len() ==> (#[trigger] old(self).targets@[k]) < old(self).files@.len(),
        ensures
            forall|k: int| 0 <= k < final(self).targets@.len() ==> (#[trigger] final(self).targets@[k]) < final(self).files@.len(),
            (final(self)@, result_view(a)) == next_type(old(self)@, t as int),
    {
        if t < self.types.len() {
            self.phase = Phase::Resolving(t);
            Ok(GenerationAction::ResolveDumpDir { path: self.dumpdir.clone() })
        } else {
            self.next_check(0)
        }
    }

    fn next_restore(&mut self, t: usize, k: usize) -> (a: Result<GenerationAction, GenerationError>)
        requires
            t < old(self).types@.len(),
            k <= old(self).targets@.len(),
            forall|k: int| 0 <= k < old(self).targets@.len() ==> (#[trigger] old(self).targets@[k]) < old(self).files@.len(),
        ensures
            forall|k: int| 0 <= k < final(self).targets@.len() ==> (#[trigger] final(self).targets@[k]) < final(self).files@.len(),
            (final(self)@, result_view(a)) == next_restore(old(self)@, t as int, k as int),
    {
        if k < self.targets.len() {
            self.phase = Phase::RestoreCheck(t, k);
            Ok(GenerationAction::CheckPath { path: self.files[self.targets[k]].modPath.clone() })
        } else {
            let n: usize = self.types.len();
            assert(t < n);
            self.next_type(t + 1)
        }
    }

    fn next_types(&mut self) -> (a: Result<GenerationAction, GenerationError>)
        requires
            forall|k: int| 0 <= k < old(self).targets@.len() ==> (#[trigger] old(self).targets@[k]) < old(self).files@.len(),
        ensures
            forall|k: int| 0 <= k < final(self).targets@.len() ==> (#[trigger] final(self).targets@[k]) < final(self).files@.len(),
            (final(self)@, result_view(a)) == next_types(old(self)@),
    {
        let distinct = distinct_asset_types(&self.files, &self.targets);
        assert(self.targets@.map_values(|i: usize| self.files@[i as int].assetType@) =~= self@.targets.map_values(
            |i: usize| self@.files[i as int].assetType@,
        ));
        let ord: Option<&Vec<String>> = match &self.order {
            Some(o) => Some(o),
            None => None,
        };
        match order_asset_types(&distinct, ord) {
            Some(t) => {
                let line = found_types(&t);
                self.types = t;
                self.phase = Phase::TypesLogged;
                Ok(GenerationAction::Log(line))
            },
            None => Err(GenerationError::AssetOrderIncomplete),
        }
    }

    fn next_remove(&mut self, k: usize) -> (a: Result<GenerationAction, GenerationError>)
        requires
            k <= old(self).targets@.len(),
            forall|k: int| 0 <= k < old(self).targets@.len() ==> (#[trigger] old(self).targets@[k]) < old(self).files@.len(),
        ensures
            forall|k: int| 0 <= k < final(self).targets@.len() ==> (#[trigger] final(self).targets@[k]) < final(self).files@.len(),
            (final(self)@, result_view(a)) == next_remove(old(self)@, k as int),
    {
        if k < self.targets.len() {
            if self.refresh.is_none() {
                return Err(GenerationError::MissingRefreshSetting);
            }
            let rel = asset_path_for_removal(self.files[self.targets[k]].rootPath.as_str(), self.nongendump.as_str());
            self.phase = Phase::RemoveCheck(k);
            Ok(GenerationAction::CheckAsset { dir: self.projectdir.clone(), relative: rel })
        } else {
            self.next_types()
        }
    }

    fn next_park(&mut self, k: usize) -> (a: Result<GenerationAction, GenerationError>)
        requires
            k <= old(self).targets@.len(),
            forall|k: int| 0 <= k < old(self).targets@.len() ==> (#[trigger] old(self).targets@[k]) < old(self).files@.len(),
        ensures
            forall|k: int| 0 <= k < final(self).targets@.len() ==> (#[trigger] final(self).targets@[k]) < final(self).files@.len(),
            (final(self)@, result_view(a)) == next_park(old(self)@, k as int),
    {
        if k < self.targets.len() {
            self.phase = Phase::ParkCheck(k);
            Ok(GenerationAction::CheckPath { path: self.files[self.targets[k]].rootPath.clone() })
        } else {
            self.next_remove(0)
        }
    }

    fn run_done(&mut self, t: usize) -> (a: Result<GenerationAction, GenerationError>)
        requires
            t < old(self).types@.len(),
        ensures
            final(self).targets == old(self).targets,
            final(self).files == old(self).files,
            (final(self)@, result_view(a)) == run_done(old(self)@, t as int),
    {
        let line = class_done(self.round, self.types[t].as_str(), t, self.types.len());
        self.phase = Phase::RunLogged(t);
        Ok(GenerationAction::Log(line))
    }

    /// Takes one step: the event answers the last action; gives the next
    /// action, or why the schedule cannot go on, as `generation_step` says.
    pub fn step(&mut self, event: GenerationEvent) -> (a: Result<GenerationAction, GenerationError>)
        requires
            old(self).wf(),
        ensures
            final(self).wf(),
            (final(self)@, result_view(a)) == generation_step(old(self)@, event@),
    {
        proof {
            law_step_keeps_wf(self@, event@);
        }
        let phase = self.phase;
        match phase {
            Phase::Begin => match event {
                GenerationEvent::Started => {
                    let line = walk_summary(self.highest, self.files.len());
                    self.phase = Phase::Summarised;
                    Ok(GenerationAction::Log(line))
                },
                _ => Err(GenerationError::UnexpectedEvent),
            },
            Phase::Summarised => match event {
                GenerationEvent::Done => self.start_round(self.highest),
                _ => Err(GenerationError::UnexpectedEvent),
            },
            Phase::RoundStarted => match event {
                GenerationEvent::Done => self.next_park(0),
                _ => Err(GenerationError::UnexpectedEvent),
            },
            Phase::ParkCheck(k) => match event {
                GenerationEvent::PathExists(b) => {
                    if b {
                        let from = self.files[self.targets[k]].rootPath.clone();
                        let to = self.files[self.targets[k]].modPath.clone();
                        self.phase = Phase::Parked(k);
                        Ok(GenerationAction::Park { from, to })
                    } else {
                        let n: usize = self.targets.len();
                        assert(k < n);
                        self.next_park(k + 1)
                    }
                },
                _ => Err(GenerationError::UnexpectedEvent),
            },
            Phase::Parked(k) => match event {
                GenerationEvent::Done => {
                    let n: usize = self.targets.len();
                    assert(k < n);
                    self.next_park(k + 1)
                },
                _ => Err(GenerationError::UnexpectedEvent),
            },
            Phase::RemoveCheck(k) => match event {
                GenerationEvent::AssetPath { path, shown, exists } => match self.refresh {
                    None => Err(GenerationError::MissingRefreshSetting),
                    Some(r) => {
                        if exists && r {
                            self.last_shown = shown;
                            self.phase = Phase::Removed(k);
                            Ok(GenerationAction::RemoveAsset { path })
                        } else if r && !self.silent {
                            let line = absent_line(shown.as_str());
                            self.phase = Phase::RemoveLogged(k);
                            Ok(GenerationAction::Log(line))
                        } else {
                            let n: usize = self.targets.len();
                            assert(k < n);
                            self.next_remove(k + 1)
                        }
                    },
                },
                _ => Err(GenerationError::UnexpectedEvent),
            },
            Phase::Removed(k) => match event {
                GenerationEvent::Done => {
                    if !self.silent {
                        let line = removed_line(self.last_shown.as_str());
                        self.phase = Phase::RemoveLogged(k);
                        Ok(GenerationAction::Log(line))
                    } else {
                        let n: usize = self.targets.len();
                        assert(k < n);
                        self.next_remove(k + 1)
                    }
                },
                _ => Err(GenerationError::UnexpectedEvent),
            },
            Phase::RemoveLogged(k) => match event {
                GenerationEvent::Done => {
                    let n: usize = self.targets.len();
                    assert(k < n);
                    self.next_remove(k + 1)
                },
                _ => Err(GenerationError::UnexpectedEvent),
            },
            Phase::TypesLogged => match event {
                GenerationEvent::Done => self.next_type(0),
                _ => Err(GenerationError::UnexpectedEvent),
            },
            Phase::Resolving(t) => match event {
                GenerationEvent::DumpDir(c) => match self.refresh {
                    None => Err(GenerationError::MissingRefreshSetting),
                    Some(r) => {
                        let (program, args) = generation_command(
                            self.ue4cmd.as_str(),
                            self.project.as_str(),
                            c.as_str(),
                            self.types[t].as_str(),
                            r,
                        );
                        self.canonical = c;
                        if !self.silent {
                            let line = announce_line(program.as_str(), &args);
                            self.program = program;
                            self.args = args;
                            self.phase = Phase::Announced(t);
                            Ok(GenerationAction::Say(line))
                        } else {
                            let run_args = clone_strings(&args);
                            let run_program = program.clone();
                            self.program = program;
                            self.args = args;
                            self.phase = Phase::Running(t);
                            Ok(GenerationAction::Run { program: run_program, args: run_args })
                        }
                    },
                },
                _ => Err(GenerationError::UnexpectedEvent),
            },
            Phase::Announced(t) => match event {
                GenerationEvent::Done => {
                    let program = self.program.clone();
                    let args = clone_strings(&self.args);
                    self.phase = Phase::Running(t);
                    Ok(GenerationAction::Run { program, args })
                },
                _ => Err(GenerationError::UnexpectedEvent),
            },
            Phase::Running(t) => match event {
                GenerationEvent::CommandFinished { stderr } => {
                    if stderr.as_str().unicode_len() > 0 {
                        let line = stderr_line(self.types[t].as_str(), stderr.as_str());
                        self.phase = Phase::StderrShown(t);
                        Ok(GenerationAction::Say(line))
                    } else {
                        self.run_done(t)
                    }
                },
                GenerationEvent::CommandFailed { error } => {
                    let line = run_failed_line(self.round, self.types[t].as_str(), error.as_str());
                    self.phase = Phase::RunLogged(t);
                    Ok(GenerationAction::Log(line))
                },
                _ => Err(GenerationError::UnexpectedEvent),
            },
            Phase::StderrShown(t) => match event {
                GenerationEvent::Done => self.run_done(t),
                _ => Err(GenerationError::UnexpectedEvent),
            },
            Phase::RunLogged(t) => match event {
                GenerationEvent::Done => self.next_restore(t, 0),
                _ => Err(GenerationError::UnexpectedEvent),
            },
            Phase::RestoreCheck(t, k) => match event {
                GenerationEvent::PathExists(b) => {
                    if b {
                        let from = self.files[self.targets[k]].modPath.clone();
                        let to = self.files[self.targets[k]].rootPath.clone();
                        self.phase = Phase::Restored(t, k);
                        Ok(GenerationAction::Restore { from, to })
                    } else {
                        let n: usize = self.targets.len();
                        assert(k < n);
                        self.next_restore(t, k + 1)
                    }
                },
                _ => Err(GenerationError::UnexpectedEvent),
            },
            Phase::Restored(t, k) => match event {
                GenerationEvent::Done => {
                    let n: usize = self.targets.len();
                    assert(k < n);
                    self.next_restore(t, k + 1)
                },
                _ => Err(GenerationError::UnexpectedEvent),
            },
            Phase::ReportCheck(k) => match event {
                GenerationEvent::AssetPath { path, shown, exists } => {
                    if !exists {
                        let ghost before = self.fails.deep_view();
                        self.fails.push(path);
                        assert(self.fails.deep_view() == before.push(path@));
                    }
                    {
                        let n: usize = self.targets.len();
                        assert(k < n);
                        self.next_check(k + 1)
                    }
                },
                _ => Err(GenerationError::UnexpectedEvent),
            },
            Phase::Closing => match event {
                GenerationEvent::Done => {
                    let line = failure_report(&self.fails);
                    self.phase = Phase::Reported;
                    Ok(GenerationAction::Log(line))
                },
                _ => Err(GenerationError::UnexpectedEvent),
            },
            Phase::Reported => match event {
                GenerationEvent::Done => {
                    let fails = clone_strings(&self.fails);
                    self.phase = Phase::Over;
                    Ok(GenerationAction::Finished { fails })
                },
                _ => Err(GenerationError::UnexpectedEvent),
            },
            Phase::Over => {
                let fails = clone_strings(&self.fails);
                Ok(GenerationAction::Finished { fails })
            },
        }
    }
}

/// The line for an asset to be refreshed that did not exist.
fn absent_line(shown: &str) -> (res: String)
    ensures
        res@ == absent_text(shown@),
{
    let mut r = String::from_str("<<red>>Removed</red>> ");
    r.append(shown);
    r.append(" <<grey>>(did not exist)</grey>>");
    r
}

/// The line after an asset was removed.
fn removed_line(shown: &str) -> (res: String)
    ensures
        res@ == removed_text(shown@),
{
    let mut r = String::from_str("<<red>>Removed</red>> ");
    r.append(shown);
    r
}

/// The line that announces a generator run.
fn announce_line(program: &str, args: &Vec<String>) -> (res: String)
    ensures
        res@ == announce_text(program@, args.deep_view()),
{
    let mut r = String::from_str("Running command: ");
    r.append(program);
    r.append(" - with args: ");
    r.append(join_str(args, " ").as_str());
    r
}

/// The lines that show a run's error stream.
fn stderr_line(asset_type: &str, stderr: &str) -> (res: String)
    ensures
        res@ == stderr_text(asset_type@, stderr@),
{
    let mut r = String::from_str("<<red>>");
    r.append(asset_type);
    r.append(":</red>>\n");
    r.append(stderr);
    r
}

/// The lines after the generator could not be started.
fn run_failed_line(round: u32, asset_type: &str, error: &str) -> (res: String)
    ensures
        res@ == run_failed_text(round, asset_type@, error@),
{
    let mut r = String::from_str("<<grey>>Iteration ");
    r.append(decimal_string(round as u64).as_str());
    r.append(" with AssetType ");
    r.append(asset_type);
    r.append(":</grey>>\n<<red>>");
    r.append(error);
    r.append("</red>>");
    r
}

} // verus!
