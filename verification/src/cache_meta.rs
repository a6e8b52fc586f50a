//! Where a cached plugin's files are, the signature its entry is stored
//! under, and when a cached entry may be used.
use vstd::prelude::*;
use crate::text::{copy_str, concat2, concat3, str_eq, starts_with, has_prefix};
use crate::path::{spec_path_join, path_join};

verus! {

/// The kinds of plugins.
#[derive(Debug, Clone, Copy, PartialEq, Eq, Structural)]
pub enum PluginKind {
    Wasm,
    Process,
}

/// The size and modification time of a local source file, taken when its
/// plugin was set up.
#[derive(Debug, PartialEq, Eq)]
pub struct LocalStamp {
    pub path: String,
    pub len: u64,
    pub modified_ms: u64,
}

/// The directory of the cached plugins under the cache directory.
pub open spec fn spec_plugins_dir(cache_dir: Seq<char>) -> Seq<char> {
    spec_path_join(cache_dir, "plugins"@)
}

/// The directory of the cached plugins under the cache directory.
pub fn plugins_dir(cache_dir: &str) -> (r: String)
    ensures
        r@ == spec_plugins_dir(cache_dir@),
{
    path_join(cache_dir, "plugins")
}

/// The compiled module of a wasm plugin's entry.
pub fn wasm_artifact_path(hash: &str, cache_dir: &str) -> (r: String)
    ensures
        r@ == spec_path_join(spec_plugins_dir(cache_dir@), hash@ + ".cwasm"@),
{
    let dir = plugins_dir(cache_dir);
    let name = concat2(hash, ".cwasm");
    path_join(dir.as_str(), name.as_str())
}

/// The directory a process plugin's entry is extracted into.
pub fn process_dir_path(hash: &str, cache_dir: &str) -> (r: String)
    ensures
        r@ == spec_path_join(spec_plugins_dir(cache_dir@), hash@),
{
    let dir = plugins_dir(cache_dir);
    path_join(dir.as_str(), hash)
}

/// The file that describes an entry.
pub fn meta_path(hash: &str, cache_dir: &str) -> (r: String)
    ensures
        r@ == spec_path_join(spec_plugins_dir(cache_dir@), hash@ + ".json"@),
{
    let dir = plugins_dir(cache_dir);
    let name = concat2(hash, ".json");
    path_join(dir.as_str(), name.as_str())
}

/// The file an entry's plugin runs from: the compiled module of a wasm
/// plugin, or the executable within a process plugin's directory.
pub fn artifact_file_path(kind: PluginKind, executable_sub_path: Option<&str>, hash: &str, cache_dir: &str) -> (r: String)
    ensures
        r@ == match kind {
            PluginKind::Wasm => spec_path_join(spec_plugins_dir(cache_dir@), hash@ + ".cwasm"@),
            PluginKind::Process => spec_path_join(
                spec_path_join(spec_plugins_dir(cache_dir@), hash@),
                match executable_sub_path {
                    Some(p) => p@,
                    None => Seq::<char>::empty(),
                },
            ),
        },
{
    match kind {
        PluginKind::Wasm => wasm_artifact_path(hash, cache_dir),
        PluginKind::Process => {
            let dir = process_dir_path(hash, cache_dir);
            match executable_sub_path {
                Some(p) => path_join(dir.as_str(), p),
                None => {
                    proof {
                        reveal_strlit("");
                    }
                    path_join(dir.as_str(), "")
                },
            }
        },
    }
}

/// The signature folded into every entry: the cache's schema version, the
/// wasm cache version, the wasm cache key of the machine and its operating
/// system, joined by `-`.
pub fn current_signature(schema_version: &str, wasm_cache_version: &str, wasm_cache_key: &str, os: &str) -> (r: String)
    ensures
        r@ == schema_version@ + "-"@ + wasm_cache_version@ + "-"@ + wasm_cache_key@ + "-"@ + os@,
{
    let a = concat3(schema_version, "-", wasm_cache_version);
    let b = concat3(a.as_str(), "-", wasm_cache_key);
    concat3(b.as_str(), "-", os)
}

/// Whether a file's current size and modification time are those stamped.
pub open spec fn stamp_ok(current: Option<(u64, u64)>, stamp: LocalStamp) -> bool {
    match current {
        Some(c) => c.0 == stamp.len && c.1 == stamp.modified_ms,
        None => false,
    }
}

/// Whether the stamped local files are unchanged: there is at least one
/// stamp, and every stamped file still has its size and modification time.
pub open spec fn spec_stamps_match(stamps: Option<Seq<LocalStamp>>, current: Seq<Option<(u64, u64)>>) -> bool {
    match stamps {
        Some(s) => s.len() > 0 && forall|i: int| 0 <= i < s.len() ==> #[trigger] stamp_ok(current[i], s[i]),
        None => false,
    }
}

/// Whether the stamped local files are unchanged, given each stamped file's
/// current size and modification time in milliseconds, `None` when it could
/// not be read (see [`spec_stamps_match`]).
#[verifier::loop_isolation(false)]
pub fn local_stamps_match(stamps: Option<&Vec<LocalStamp>>, current: &Vec<Option<(u64, u64)>>) -> (r: bool)
    requires
        stamps matches Some(s) ==> current@.len() == s@.len(),
    ensures
        r == spec_stamps_match(
            match stamps {
                Some(s) => Some(s@),
                None => None,
            },
            current@,
        ),
{
    let s = match stamps {
        Some(s) => s,
        None => return false,
    };
    if s.len() == 0 {
        return false;
    }
    let mut i: usize = 0;
    while i < s.len()
        invariant
            i <= s@.len(),
            current@.len() == s@.len(),
            forall|j: int| 0 <= j < i ==> #[trigger] stamp_ok(current@[j], s@[j]),
        decreases s@.len() - i,
    {
        let cur = current[i];
        match cur {
            Some(c) => {
                if !(c.0 == s[i].len && c.1 == s[i].modified_ms) {
                    assert(!stamp_ok(current@[i as int], s@[i as int]));
                    return false;
                }
            },
            None => {
                assert(!stamp_ok(current@[i as int], s@[i as int]));
                return false;
            },
        }
        assert(stamp_ok(current@[i as int], s@[i as int]));
        i = i + 1;
    }
    true
}

/// Whether a process plugin's per-platform archive reference names a local
/// file, which is stamped too: an npm package or a web address is fetched
/// afresh and is not.
pub fn is_local_archive_reference(reference: &str) -> (r: bool)
    ensures
        r == !(has_prefix(reference@, "npm:"@) || has_prefix(reference@, "http://"@) || has_prefix(
            reference@,
            "https://"@,
        )),
{
    !(starts_with(reference, "npm:") || starts_with(reference, "http://") || starts_with(reference, "https://"))
}

/// The change-detection stamps of a local source, from the stamp of its file
/// taken before its bytes were read: none without it, so that the entry is
/// set up again next time. A process plugin whose archive is a local file
/// (and not a tarball resolved beforehand) has that archive stamped too,
/// where it could be.
pub fn build_local_stamps(
    primary: Option<LocalStamp>,
    plugin_kind: PluginKind,
    has_pre_resolved_tarball: bool,
    archive_stamp: Option<LocalStamp>,
) -> (r: Option<Vec<LocalStamp>>)
    ensures
        match primary {
            None => r is None,
            Some(p) => r matches Some(v) && v@ == if plugin_kind == PluginKind::Process && !has_pre_resolved_tarball
                && archive_stamp is Some {
                seq![p, archive_stamp->0]
            } else {
                seq![p]
            },
        },
{
    let p = match primary {
        Some(p) => p,
        None => return None,
    };
    let mut stamps: Vec<LocalStamp> = Vec::new();
    stamps.push(p);
    if plugin_kind == PluginKind::Process && !has_pre_resolved_tarball {
        if let Some(a) = archive_stamp {
            stamps.push(a);
        }
    }
    Some(stamps)
}

/// Whether a cached entry may be used for a source: it was stored under the
/// same key (two sources can hash to the same file name), and for a local
/// source its stamped files are unchanged.
pub fn cached_entry_valid(
    meta_source: &str,
    cache_key: &str,
    source_is_local: bool,
    stamps: Option<&Vec<LocalStamp>>,
    current: &Vec<Option<(u64, u64)>>,
) -> (r: bool)
    requires
        stamps matches Some(s) ==> current@.len() == s@.len(),
    ensures
        r == (meta_source@ == cache_key@ && (!source_is_local || spec_stamps_match(
            match stamps {
                Some(s) => Some(s@),
                None => None,
            },
            current@,
        ))),
{
    if !str_eq(meta_source, cache_key) {
        return false;
    }
    if source_is_local && !local_stamps_match(stamps, current) {
        return false;
    }
    true
}

/// A time in milliseconds since the unix epoch as stored, from the
/// milliseconds since the epoch (`None` for a time before it): kept to 64
/// bits, and 0 before the epoch.
pub fn to_unix_millis_from(millis_since_epoch: Option<u128>) -> (r: u64)
    ensures
        r == match millis_since_epoch {
            Some(m) => (m % 0x1_0000_0000_0000_0000) as u64,
            None => 0,
        },
{
    match millis_since_epoch {
        Some(m) => {
            let low = m % 0x1_0000_0000_0000_0000;
            low as u64
        },
        None => 0,
    }
}

#[verifier::external_type_specification]
#[verifier::external_body]
pub struct ExSystemTime(std::time::SystemTime);

/// What `SystemTime::duration_since(UNIX_EPOCH)` gives for a time: its
/// distance from the unix epoch, or none (the error) for a time before it.
/// It depends on the time alone.
pub uninterp spec fn epoch_duration(time: std::time::SystemTime) -> Option<core::time::Duration>;

/// What `Duration::as_millis` gives: the whole milliseconds of the duration.
/// It depends on the duration alone.
pub uninterp spec fn duration_ms(d: core::time::Duration) -> u128;

/// `SystemTime::duration_since` the unix epoch, `None` for a time before the
/// epoch. The result is named [`epoch_duration`]; nothing more is stated of
/// it.
#[verifier::external_body]
fn duration_since_epoch(time: &std::time::SystemTime) -> (r: Option<core::time::Duration>)
    ensures
        r == epoch_duration(*time),
{
    time.duration_since(std::time::SystemTime::UNIX_EPOCH).ok()
}

/// `Duration::as_millis`: the whole milliseconds of a duration. The result
/// is named [`duration_ms`]; nothing more is stated of it.
#[verifier::external_body]
fn duration_millis(d: &core::time::Duration) -> (r: u128)
    ensures
        r == duration_ms(*d),
{
    d.as_millis()
}

/// Converts a modification time to milliseconds since the unix epoch for
/// stable serialization: the milliseconds since the epoch kept to 64 bits,
/// and 0 for a time before the epoch (see [`to_unix_millis_from`]).
pub fn to_unix_millis(time: std::time::SystemTime) -> (r: u64)
    ensures
        r == match epoch_duration(time) {
            Some(d) => (duration_ms(d) % 0x1_0000_0000_0000_0000) as u64,
            None => 0,
        },
{
    let millis = match duration_since_epoch(&time) {
        Some(d) => Some(duration_millis(&d)),
        None => None,
    };
    to_unix_millis_from(millis)
}

/// Where a plugin being set up goes: the compiled module of a wasm plugin,
/// or the directory a process plugin is extracted into.
#[derive(Debug)]
pub struct SetupPluginDest {
    pub wasm_file_path: String,
    pub process_dir_path: String,
}

/// The destination of the cache entry `hash`.
pub fn setup_plugin_dest(hash: &str, cache_dir: &str) -> (r: SetupPluginDest)
    ensures
        r.wasm_file_path@ == spec_path_join(spec_plugins_dir(cache_dir@), hash@ + ".cwasm"@),
        r.process_dir_path@ == spec_path_join(spec_plugins_dir(cache_dir@), hash@),
{
    SetupPluginDest { wasm_file_path: wasm_artifact_path(hash, cache_dir), process_dir_path: process_dir_path(hash, cache_dir) }
}

/// What `dprint add` learns of an npm plugin: its kind, the plugin file's
/// path within the package, and the tarball's checksum.
#[derive(Debug)]
pub struct NpmAddResolution {
    pub plugin_kind: PluginKind,
    pub path: String,
    pub checksum: String,
}

/// The plugin file within an npm package whose specifier names none.
pub fn default_plugin_path(kind: PluginKind) -> (r: &'static str)
    ensures
        r@ == match kind {
            PluginKind::Wasm => "plugin.wasm"@,
            PluginKind::Process => "plugin.json"@,
        },
{
    match kind {
        PluginKind::Wasm => "plugin.wasm",
        PluginKind::Process => "plugin.json",
    }
}

/// What `dprint add` writes for an npm plugin version whose kind and tarball
/// checksum a prior add or format cached: the plugin file the specifier
/// named where it named one, else the package's default one.
pub fn npm_add_from_cache(
    plugin_kind: PluginKind,
    tarball_sha256: String,
    path_was_explicit: bool,
    specifier_path: &str,
) -> (r: NpmAddResolution)
    ensures
        r.plugin_kind == plugin_kind,
        r.checksum@ == tarball_sha256@,
        r.path@ == if path_was_explicit {
            specifier_path@
        } else {
            match plugin_kind {
                PluginKind::Wasm => "plugin.wasm"@,
                PluginKind::Process => "plugin.json"@,
            }
        },
{
    let path = if path_was_explicit {
        copy_str(specifier_path)
    } else {
        copy_str(default_plugin_path(plugin_kind))
    };
    NpmAddResolution { plugin_kind, path, checksum: tarball_sha256 }
}

/// Whether getting a plugin ran into configuration diagnostics or gave the
/// plugin.
#[derive(Debug)]
pub enum GetPluginResult<P> {
    HadDiagnostics,
    Success(P),
}

/// A plugin's configuration had diagnostics.
#[derive(Debug)]
pub struct OutputPluginConfigDiagnosticsError {
    pub plugin_name: String,
    pub diagnostic_count: usize,
}

impl OutputPluginConfigDiagnosticsError {
    /// The text that explains the error to the user.
    pub fn to_string(&self) -> (r: String)
        ensures
            r@ == "["@ + self.plugin_name@ + "]: Error initializing from configuration file. Had "@ + crate::text::decimal(
                self.diagnostic_count as nat,
            ) + " diagnostic(s)."@,
    {
        let number = crate::text::decimal_text(self.diagnostic_count);
        let head = concat3("[", self.plugin_name.as_str(), "]: Error initializing from configuration file. Had ");
        concat3(head.as_str(), number.as_str(), " diagnostic(s).")
    }
}

/// The outcome of a plugin's configuration diagnostics once they are shown:
/// an error when there were any.
pub fn diagnostics_outcome(plugin_name: &str, diagnostic_count: usize) -> (r: Result<(), OutputPluginConfigDiagnosticsError>)
    ensures
        diagnostic_count == 0 <==> r is Ok,
        r matches Err(e) ==> e.plugin_name@ == plugin_name@ && e.diagnostic_count == diagnostic_count,
{
    if diagnostic_count > 0 {
        Err(OutputPluginConfigDiagnosticsError { plugin_name: copy_str(plugin_name), diagnostic_count })
    } else {
        Ok(())
    }
}

/// What a plugin cache entry is keyed by: a remote url, a local file by its
/// absolute path, or an npm package by the registry it resolves from, its
/// name, version and the path of the plugin file within it (with how the
/// specifier is shown).
#[derive(Debug)]
pub enum CacheKeySource {
    Remote { url: String },
    Local { absolute_path: String },
    Npm { registry: String, name: String, version: Option<String>, path: String, display: String },
}

/// A cache key was asked for an npm specifier without a version, which is
/// cached under its local path instead.
#[derive(Debug)]
pub struct UnversionedNpmKeyError {
    pub display: String,
}

impl UnversionedNpmKeyError {
    /// The text that explains the error.
    pub fn to_string(&self) -> (r: String)
        ensures
            r@ == "Internal error: cache key requested for unversioned npm specifier "@ + self.display@
                + " \u{2014} this should have been mapped to a local path."@,
    {
        concat3(
            "Internal error: cache key requested for unversioned npm specifier ",
            self.display.as_str(),
            " \u{2014} this should have been mapped to a local path.",
        )
    }
}

/// The stable key of a cache entry: `remote:<url>`, `local:<path>`, or
/// `npm:<registry>#<name>@<version>/<path>`; an npm specifier without a
/// version has none.
pub open spec fn spec_cache_key(source: CacheKeySource) -> Option<Seq<char>> {
    match source {
        CacheKeySource::Remote { url } => Some("remote:"@ + url@),
        CacheKeySource::Local { absolute_path } => Some("local:"@ + absolute_path@),
        CacheKeySource::Npm { registry, name, version, path, .. } => match version {
            Some(v) => Some("npm:"@ + registry@ + "#"@ + name@ + "@"@ + v@ + "/"@ + path@),
            None => None,
        },
    }
}

/// The stable key of a cache entry (see [`spec_cache_key`]).
pub fn compute_cache_key(source: &CacheKeySource) -> (r: Result<String, UnversionedNpmKeyError>)
    ensures
        match spec_cache_key(*source) {
            Some(k) => r matches Ok(s) && s@ == k,
            None => r matches Err(e) && source matches CacheKeySource::Npm { display, .. } && e.display@ == display@,
        },
{
    match source {
        CacheKeySource::Remote { url } => Ok(concat2("remote:", url.as_str())),
        CacheKeySource::Local { absolute_path } => Ok(concat2("local:", absolute_path.as_str())),
        CacheKeySource::Npm { registry, name, version, path, display } => match version {
            Some(v) => {
                let a = concat3("npm:", registry.as_str(), "#");
                let b = concat3(a.as_str(), name.as_str(), "@");
                let c = concat3(b.as_str(), v.as_str(), "/");
                Ok(concat2(c.as_str(), path.as_str()))
            },
            None => Err(UnversionedNpmKeyError { display: copy_str(display.as_str()) }),
        },
    }
}


/// Whether a plugin's bytes may be set up, as the configuration's checksum
/// decides: a checksum that was given must match the bytes (`matches`, with
/// the checker's error `mismatch` when it does not); without a checksum only
/// a wasm plugin is accepted, and the error for another kind says which
/// checksum to give (`actual`, for the source shown as `source`).
pub fn check_plugin_checksum(
    kind: PluginKind,
    checksum: Option<&str>,
    matches: bool,
    mismatch: &str,
    actual: &str,
    source: &str,
) -> (r: Result<(), String>)
    ensures
        r is Ok <==> (checksum is Some && matches || checksum is None && kind == PluginKind::Wasm),
        checksum is Some && !matches ==> (r matches Err(e) && e@
            == "Invalid checksum specified in configuration file. Check the plugin's release notes for what the expected checksum is.\n\n"@
            + mismatch@),
        checksum is None && kind != PluginKind::Wasm ==> (r matches Err(e) && e@
            == "The plugin must have a checksum specified for security reasons since it is not a Wasm plugin. Check the plugin's release notes for what the checksum is or if you trust the source, you may specify: "@
            + source@ + "@"@ + actual@),
{
    match checksum {
        Some(_) => {
            if matches {
                Ok(())
            } else {
                Err(
                    concat2(
                        "Invalid checksum specified in configuration file. Check the plugin's release notes for what the expected checksum is.\n\n",
                        mismatch,
                    ),
                )
            }
        },
        None => match kind {
            PluginKind::Wasm => Ok(()),
            PluginKind::Process => {
                let head = concat3(
                    "The plugin must have a checksum specified for security reasons since it is not a Wasm plugin. Check the plugin's release notes for what the checksum is or if you trust the source, you may specify: ",
                    source,
                    "@",
                );
                Err(concat2(head.as_str(), actual))
            },
        },
    }
}

} // verus!
