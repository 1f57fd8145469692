//! The configuration file's settings and the checks made on them.
use vstd::prelude::*;
use sysinfo::System;
use crate::input::ParsedArgs;
use crate::text::{parse_u64_seq, parse_u64_str};

verus! {

/// `sysinfo::System`, a snapshot of the machine, opaque here.
#[verifier::external_type_specification]
#[verifier::external_body]
pub struct ExSystem(System);

/// The settings read from the configuration file; any may be absent.
pub struct FileConfig {
    /// The Unreal Engine command-line executable.
    pub ue4cmd: Option<String>,
    /// The project file that holds the asset generator.
    pub project: Option<String>,
    /// The project's directory, where generated assets land.
    pub projectdir: Option<String>,
    /// The directory the generator reads dumps from.
    pub dumpdir: Option<String>,
    /// The directory of the serialised dumps.
    pub nongendump: Option<String>,
    /// The asset classes in the order they must be generated.
    pub assetOrder: Option<Vec<String>>,
    /// Whether assets that already exist are removed and generated anew.
    pub refreshExistingAssets: Option<bool>,
}

/// The checked configuration.
pub struct Config {
    /// The settings from the file.
    pub fileConfig: FileConfig,
    /// The largest number of files a batch may hold.
    pub maxBatchSize: u64,
}

/// Why the configuration cannot be used.
#[derive(Debug, Clone, Copy, PartialEq, Eq, Structural)]
pub enum ConfigError {
    /// One of the five paths is missing from the file.
    MissingPaths,
    /// The installed memory could not be read.
    MemoryUnknown,
}

impl FileConfig {
    /// All five paths are given.
    pub open spec fn paths_given(&self) -> bool {
        &&& self.ue4cmd is Some
        &&& self.project is Some
        &&& self.projectdir is Some
        &&& self.dumpdir is Some
        &&& self.nongendump is Some
    }

    /// Whether all five paths are given.
    pub fn has_required_paths(&self) -> (b: bool)
        ensures
            b == self.paths_given(),
    {
        self.ue4cmd.is_some() && self.project.is_some() && self.projectdir.is_some()
            && self.dumpdir.is_some() && self.nongendump.is_some()
    }
}

/// The batch size that `total_memory` bytes of memory allow: ninety per whole
/// gigabyte (10^9 bytes).
pub open spec fn batch_size_for_memory(total_memory: u64) -> u64 {
    (total_memory / 1_000_000_000 * 90) as u64
}

/// The batch size: the `maxBatchSize` argument where one was given (`None`
/// where it is not an unsigned number), or else what the memory allows.
pub fn max_batch_size(overrides: &ParsedArgs, total_memory: u64) -> (res: Option<u64>)
    ensures
        overrides@.contains_key("maxBatchSize"@) ==> res == parse_u64_seq(
            overrides@["maxBatchSize"@],
        ),
        !overrides@.contains_key("maxBatchSize"@) ==> res == Some(
            batch_size_for_memory(total_memory),
        ),
{
    match overrides.get("maxBatchSize") {
        Some(s) => parse_u64_str(s.as_str()),
        None => {
            assert(total_memory / 1_000_000_000 <= 18_446_744_073);
            Some(total_memory / 1_000_000_000 * 90)
        },
    }
}

/// Where the five paths are given, a `maxBatchSize` argument, if any, is an
/// unsigned number (the check of the settings reads it only then, and cannot
/// go on where it is not).
pub open spec fn batch_size_readable(file: FileConfig, overrides: Map<Seq<char>, Seq<char>>) -> bool {
    file.paths_given() && overrides.contains_key("maxBatchSize"@) ==> parse_u64_seq(
        overrides["maxBatchSize"@],
    ) is Some
}

/// What checking a configuration gives, for a machine with `total_memory`
/// bytes of memory.
pub open spec fn checked_config(file: FileConfig, overrides: Map<Seq<char>, Seq<char>>, total_memory: u64) -> Result<u64, ConfigError> {
    if !file.paths_given() {
        Err(ConfigError::MissingPaths)
    } else if overrides.contains_key("maxBatchSize"@) {
        Ok(parse_u64_seq(overrides["maxBatchSize"@])->0)
    } else {
        Ok(batch_size_for_memory(total_memory))
    }
}

/// Checks the settings read from the file against the arguments, for a
/// machine with `total_memory` bytes of memory: the five paths must be given,
/// and the batch size is the `maxBatchSize` argument or what the memory
/// allows.
pub fn config_with_memory(file_config: FileConfig, overrides: &ParsedArgs, total_memory: u64) -> (res: Result<Config, ConfigError>)
    requires
        batch_size_readable(file_config, overrides@),
    ensures
        match checked_config(file_config, overrides@, total_memory) {
            Ok(n) => res matches Ok(c) && c.maxBatchSize == n && c.fileConfig == file_config,
            Err(e) => res == Err::<Config, ConfigError>(e),
        },
{
    if !file_config.has_required_paths() {
        return Err(ConfigError::MissingPaths);
    }
    let n = max_batch_size(overrides, total_memory).unwrap();
    Ok(Config { fileConfig: file_config, maxBatchSize: n })
}

/// Takes a snapshot of the machine with `sysinfo::System::new_all`; `None`
/// where it fails. Trusted only to return; nothing is claimed of the
/// snapshot, which depends on the machine.
#[verifier::external_body]
fn system_snapshot() -> (res: Option<System>) {
    match System::new_all() {
        Ok(s) => Some(s),
        Err(_) => None,
    }
}

/// Refreshes the snapshot with `sysinfo::System::refresh_all`. Trusted only
/// to return; nothing is claimed of the snapshot, which depends on the
/// machine.
#[verifier::external_body]
fn refresh_snapshot(system: &mut System) {
    system.refresh_all();
}

/// The installed memory in bytes, by `sysinfo::System::total_memory`.
/// Trusted only to return; the value depends on the machine.
#[verifier::external_body]
fn snapshot_total_memory(system: &System) -> u64 {
    system.total_memory()
}

/// The installed memory in bytes, from a fresh snapshot of the machine;
/// `None` where no snapshot can be taken.
fn installed_memory() -> Option<u64> {
    match system_snapshot() {
        Some(mut system) => {
            refresh_snapshot(&mut system);
            Some(snapshot_total_memory(&system))
        },
        None => None,
    }
}

/// Checks the settings read from the configuration file against the
/// arguments: the five paths must be given, and the batch size is the
/// `maxBatchSize` argument or ninety per gigabyte of this machine's memory.
/// Where the memory is needed and cannot be read, fails with
/// `MemoryUnknown`; otherwise the outcome is that of `config_with_memory`
/// for the memory read.
pub fn checkConfig(fileConfig: FileConfig, overrideArguments: &ParsedArgs) -> (res: Result<Config, ConfigError>)
    requires
        batch_size_readable(fileConfig, overrideArguments@),
    ensures
        !fileConfig.paths_given() ==> res == Err::<Config, ConfigError>(ConfigError::MissingPaths),
        fileConfig.paths_given() && overrideArguments@.contains_key("maxBatchSize"@) ==> (res matches Ok(c)
            && c.maxBatchSize == parse_u64_seq(overrideArguments@["maxBatchSize"@])->0
            && c.fileConfig == fileConfig),
        fileConfig.paths_given() && !overrideArguments@.contains_key("maxBatchSize"@) ==> match res {
            Ok(c) => c.fileConfig == fileConfig && exists|m: u64| c.maxBatchSize == batch_size_for_memory(m),
            Err(e) => e == ConfigError::MemoryUnknown,
        },
{
    if !fileConfig.has_required_paths() {
        return Err(ConfigError::MissingPaths);
    }
    if overrideArguments.contains_key("maxBatchSize") {
        return config_with_memory(fileConfig, overrideArguments, 0);
    }
    match installed_memory() {
        Some(m) => config_with_memory(fileConfig, overrideArguments, m),
        None => Err(ConfigError::MemoryUnknown),
    }
}

} // verus!
