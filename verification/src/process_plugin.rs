//! The manifest of a process plugin: which build suits the machine, and
//! whether the manifest is one this version understands.
use vstd::prelude::*;
use crate::text::{copy_str, concat2, concat3, str_eq};

verus! {

/// Where a plugin's build for one platform is, with its checksum.
#[derive(Debug)]
pub struct ProcessPluginPath {
    pub reference: String,
    pub checksum: String,
}

/// The manifest of a process plugin, with a build per platform.
#[derive(Debug)]
pub struct ProcessPluginFile {
    pub schema_version: u32,
    pub name: String,
    pub version: String,
    pub linux_x86_64: Option<ProcessPluginPath>,
    pub linux_x86_64_musl: Option<ProcessPluginPath>,
    pub linux_aarch64: Option<ProcessPluginPath>,
    pub linux_aarch64_musl: Option<ProcessPluginPath>,
    pub linux_riscv64: Option<ProcessPluginPath>,
    pub linux_riscv64_musl: Option<ProcessPluginPath>,
    pub linux_loongarch64: Option<ProcessPluginPath>,
    pub linux_loongarch64_musl: Option<ProcessPluginPath>,
    pub linux_powerpc64: Option<ProcessPluginPath>,
    pub linux_powerpc64_musl: Option<ProcessPluginPath>,
    pub android_x86_64: Option<ProcessPluginPath>,
    pub android_aarch64: Option<ProcessPluginPath>,
    pub darwin_x86_64: Option<ProcessPluginPath>,
    pub darwin_aarch64: Option<ProcessPluginPath>,
    pub windows_x64_64: Option<ProcessPluginPath>,
    pub windows_aarch64: Option<ProcessPluginPath>,
}

/// The platforms a manifest can hold a build for.
#[derive(Debug, Clone, Copy, PartialEq, Eq, Structural)]
pub enum Platform {
    LinuxX86_64,
    LinuxX86_64Musl,
    LinuxAarch64,
    LinuxAarch64Musl,
    LinuxRiscv64,
    LinuxRiscv64Musl,
    LinuxLoongarch64,
    LinuxLoongarch64Musl,
    LinuxPowerpc64,
    LinuxPowerpc64Musl,
    AndroidX86_64,
    AndroidAarch64,
    DarwinX86_64,
    DarwinAarch64,
    WindowsX86_64,
    WindowsAarch64,
}

/// The build of a manifest for a platform.
pub open spec fn build_for(f: &ProcessPluginFile, p: Platform) -> Option<ProcessPluginPath> {
    match p {
        Platform::LinuxX86_64 => f.linux_x86_64,
        Platform::LinuxX86_64Musl => f.linux_x86_64_musl,
        Platform::LinuxAarch64 => f.linux_aarch64,
        Platform::LinuxAarch64Musl => f.linux_aarch64_musl,
        Platform::LinuxRiscv64 => f.linux_riscv64,
        Platform::LinuxRiscv64Musl => f.linux_riscv64_musl,
        Platform::LinuxLoongarch64 => f.linux_loongarch64,
        Platform::LinuxLoongarch64Musl => f.linux_loongarch64_musl,
        Platform::LinuxPowerpc64 => f.linux_powerpc64,
        Platform::LinuxPowerpc64Musl => f.linux_powerpc64_musl,
        Platform::AndroidX86_64 => f.android_x86_64,
        Platform::AndroidAarch64 => f.android_aarch64,
        Platform::DarwinX86_64 => f.darwin_x86_64,
        Platform::DarwinAarch64 => f.darwin_aarch64,
        Platform::WindowsX86_64 => f.windows_x64_64,
        Platform::WindowsAarch64 => f.windows_aarch64,
    }
}

/// The builds that suit an operating system and CPU architecture, the
/// preferred one first (an aarch64 machine can fall back on an x86_64 build,
/// except on the linux variants of riscv64, loongarch64 and powerpc64);
/// `None` for an operating system that is not supported.
pub open spec fn candidate_platforms(os: Seq<char>, arch: Seq<char>) -> Option<Seq<Platform>> {
    if os == "linux"@ {
        Some(
            if arch == "x86_64"@ {
                seq![Platform::LinuxX86_64]
            } else if arch == "aarch64"@ {
                seq![Platform::LinuxAarch64, Platform::LinuxX86_64]
            } else if arch == "riscv64"@ {
                seq![Platform::LinuxRiscv64]
            } else if arch == "loongarch64"@ {
                seq![Platform::LinuxLoongarch64]
            } else if arch == "powerpc64"@ {
                seq![Platform::LinuxPowerpc64]
            } else {
                Seq::empty()
            },
        )
    } else if os == "linux-musl"@ {
        Some(
            if arch == "x86_64"@ {
                seq![Platform::LinuxX86_64Musl]
            } else if arch == "aarch64"@ {
                seq![Platform::LinuxAarch64Musl, Platform::LinuxX86_64Musl]
            } else if arch == "riscv64"@ {
                seq![Platform::LinuxRiscv64Musl]
            } else if arch == "loongarch64"@ {
                seq![Platform::LinuxLoongarch64Musl]
            } else if arch == "powerpc64"@ {
                seq![Platform::LinuxPowerpc64Musl]
            } else {
                Seq::empty()
            },
        )
    } else if os == "android"@ {
        Some(
            if arch == "x86_64"@ {
                seq![Platform::AndroidX86_64]
            } else if arch == "aarch64"@ {
                seq![Platform::AndroidAarch64, Platform::AndroidX86_64]
            } else {
                Seq::empty()
            },
        )
    } else if os == "macos"@ {
        Some(
            if arch == "x86_64"@ {
                seq![Platform::DarwinX86_64]
            } else if arch == "aarch64"@ {
                seq![Platform::DarwinAarch64, Platform::DarwinX86_64]
            } else {
                Seq::empty()
            },
        )
    } else if os == "windows"@ {
        Some(
            if arch == "x86_64"@ {
                seq![Platform::WindowsX86_64]
            } else if arch == "aarch64"@ {
                seq![Platform::WindowsAarch64, Platform::WindowsX86_64]
            } else {
                Seq::empty()
            },
        )
    } else {
        None
    }
}

/// The first of the platforms for which the manifest has a build.
pub open spec fn first_build(f: &ProcessPluginFile, ps: Seq<Platform>) -> Option<Platform>
    decreases ps.len(),
{
    if ps.len() == 0 {
        None
    } else if build_for(f, ps[0]) is Some {
        Some(ps[0])
    } else {
        first_build(f, ps.drop_first())
    }
}

/// Why no build of a process plugin suits the machine.
#[derive(Debug)]
pub enum OsPathError {
    UnsupportedOs { os: String },
    UnsupportedArch { arch: String, os: String },
}

impl OsPathError {
    /// The text that explains the error to the user.
    pub fn to_string(&self) -> (r: String)
        ensures
            r@ == match self {
                OsPathError::UnsupportedOs { os } => "Unsupported operating system: "@ + os@,
                OsPathError::UnsupportedArch { arch, os } => "Unsupported CPU architecture: "@ + arch@ + " ("@ + os@
                    + ")"@,
            },
    {
        match self {
            OsPathError::UnsupportedOs { os } => concat2("Unsupported operating system: ", os.as_str()),
            OsPathError::UnsupportedArch { arch, os } => {
                let head = concat3("Unsupported CPU architecture: ", arch.as_str(), " (");
                concat3(head.as_str(), os.as_str(), ")")
            },
        }
    }
}

fn build_ref(f: &ProcessPluginFile, p: Platform) -> (r: Option<&ProcessPluginPath>)
    ensures
        match build_for(f, p) {
            Some(b) => r matches Some(x) && *x == b,
            None => r is None,
        },
{
    match p {
        Platform::LinuxX86_64 => f.linux_x86_64.as_ref(),
        Platform::LinuxX86_64Musl => f.linux_x86_64_musl.as_ref(),
        Platform::LinuxAarch64 => f.linux_aarch64.as_ref(),
        Platform::LinuxAarch64Musl => f.linux_aarch64_musl.as_ref(),
        Platform::LinuxRiscv64 => f.linux_riscv64.as_ref(),
        Platform::LinuxRiscv64Musl => f.linux_riscv64_musl.as_ref(),
        Platform::LinuxLoongarch64 => f.linux_loongarch64.as_ref(),
        Platform::LinuxLoongarch64Musl => f.linux_loongarch64_musl.as_ref(),
        Platform::LinuxPowerpc64 => f.linux_powerpc64.as_ref(),
        Platform::LinuxPowerpc64Musl => f.linux_powerpc64_musl.as_ref(),
        Platform::AndroidX86_64 => f.android_x86_64.as_ref(),
        Platform::AndroidAarch64 => f.android_aarch64.as_ref(),
        Platform::DarwinX86_64 => f.darwin_x86_64.as_ref(),
        Platform::DarwinAarch64 => f.darwin_aarch64.as_ref(),
        Platform::WindowsX86_64 => f.windows_x64_64.as_ref(),
        Platform::WindowsAarch64 => f.windows_aarch64.as_ref(),
    }
}

fn candidates(os: &str, arch: &str) -> (r: Option<Vec<Platform>>)
    ensures
        match candidate_platforms(os@, arch@) {
            Some(ps) => r matches Some(v) && v@ == ps,
            None => r is None,
        },
{
    let mut v: Vec<Platform> = Vec::new();
    let (native, fallback, supported_os) = if str_eq(os, "linux") {
        if str_eq(arch, "x86_64") {
            (Some(Platform::LinuxX86_64), None, true)
        } else if str_eq(arch, "aarch64") {
            (Some(Platform::LinuxAarch64), Some(Platform::LinuxX86_64), true)
        } else if str_eq(arch, "riscv64") {
            (Some(Platform::LinuxRiscv64), None, true)
        } else if str_eq(arch, "loongarch64") {
            (Some(Platform::LinuxLoongarch64), None, true)
        } else if str_eq(arch, "powerpc64") {
            (Some(Platform::LinuxPowerpc64), None, true)
        } else {
            (None, None, true)
        }
    } else if str_eq(os, "linux-musl") {
        if str_eq(arch, "x86_64") {
            (Some(Platform::LinuxX86_64Musl), None, true)
        } else if str_eq(arch, "aarch64") {
            (Some(Platform::LinuxAarch64Musl), Some(Platform::LinuxX86_64Musl), true)
        } else if str_eq(arch, "riscv64") {
            (Some(Platform::LinuxRiscv64Musl), None, true)
        } else if str_eq(arch, "loongarch64") {
            (Some(Platform::LinuxLoongarch64Musl), None, true)
        } else if str_eq(arch, "powerpc64") {
            (Some(Platform::LinuxPowerpc64Musl), None, true)
        } else {
            (None, None, true)
        }
    } else if str_eq(os, "android") {
        if str_eq(arch, "x86_64") {
            (Some(Platform::AndroidX86_64), None, true)
        } else if str_eq(arch, "aarch64") {
            (Some(Platform::AndroidAarch64), Some(Platform::AndroidX86_64), true)
        } else {
            (None, None, true)
        }
    } else if str_eq(os, "macos") {
        if str_eq(arch, "x86_64") {
            (Some(Platform::DarwinX86_64), None, true)
        } else if str_eq(arch, "aarch64") {
            (Some(Platform::DarwinAarch64), Some(Platform::DarwinX86_64), true)
        } else {
            (None, None, true)
        }
    } else if str_eq(os, "windows") {
        if str_eq(arch, "x86_64") {
            (Some(Platform::WindowsX86_64), None, true)
        } else if str_eq(arch, "aarch64") {
            (Some(Platform::WindowsAarch64), Some(Platform::WindowsX86_64), true)
        } else {
            (None, None, true)
        }
    } else {
        (None, None, false)
    };
    if !supported_os {
        return None;
    }
    if let Some(p) = native {
        v.push(p);
    }
    if let Some(p) = fallback {
        v.push(p);
    }
    proof {
        match candidate_platforms(os@, arch@) {
            Some(ps) => {
                assert(v@ =~= ps);
            },
            None => {},
        }
    }
    Some(v)
}

/// The build of a process plugin that suits the operating system and CPU
/// architecture: the first of [`candidate_platforms`] that the manifest has.
pub fn get_os_path<'a>(plugin_file: &'a ProcessPluginFile, os: &str, arch: &str) -> (r: Result<
    &'a ProcessPluginPath,
    OsPathError,
>)
    ensures
        match candidate_platforms(os@, arch@) {
            None => r matches Err(e) && e matches OsPathError::UnsupportedOs { os: o } && o@ == os@,
            Some(ps) => match first_build(plugin_file, ps) {
                Some(p) => r matches Ok(path) && build_for(plugin_file, p) == Some(*path),
                None => r matches Err(e) && e matches OsPathError::UnsupportedArch { arch: a, os: o } && a@ == arch@
                    && o@ == os@,
            },
        },
{
    let platforms = match candidates(os, arch) {
        Some(v) => v,
        None => return Err(OsPathError::UnsupportedOs { os: copy_str(os) }),
    };
    let ghost ps = platforms@;
    let mut i: usize = 0;
    assert(ps.skip(0) =~= ps);
    while i < platforms.len()
        invariant
            i <= ps.len(),
            ps == platforms@,
            candidate_platforms(os@, arch@) == Some(ps),
            first_build(plugin_file, ps) == first_build(plugin_file, ps.skip(i as int)),
        decreases ps.len() - i,
    {
        assert(ps.skip(i as int)[0] == ps[i as int]);
        assert(ps.skip(i as int).drop_first() =~= ps.skip(i + 1));
        match build_ref(plugin_file, platforms[i]) {
            Some(path) => return Ok(path),
            None => {},
        }
        i = i + 1;
    }
    Err(OsPathError::UnsupportedArch { arch: copy_str(arch), os: copy_str(os) })
}

/// Why a plugin manifest is not one this version understands.
#[derive(Debug)]
pub enum PluginFileError {
    /// The schema version is neither 2 nor 3 (or missing).
    SchemaVersion { found: Option<u64> },
    /// The kind is neither `process` nor `deno`.
    UnsupportedKind { kind: String },
}

/// The text that explains a manifest error to the user.
pub open spec fn plugin_file_message(e: &PluginFileError) -> Seq<char> {
    match e {
        PluginFileError::SchemaVersion { found: Some(v) } => "Expected schema version 2 or 3, but found "@
            + crate::text::decimal(*v as nat)
            + ". This may indicate you need to upgrade your CLI version or plugin."@,
        PluginFileError::SchemaVersion { found: None } =>
            "Expected schema version 2 or 3, but found no property. This may indicate you need to upgrade your CLI version or plugin."@,
        PluginFileError::UnsupportedKind { kind } => "Unsupported plugin kind: "@ + kind@
            + "\nOnly process and deno plugins are supported by this version of dprint. Please upgrade your CLI."@,
    }
}

impl PluginFileError {
    /// The text that explains the error to the user.
    pub fn to_string(&self) -> (r: String)
        ensures
            r@ == plugin_file_message(self),
    {
        match self {
            PluginFileError::SchemaVersion { found: Some(v) } => {
                let digits = crate::text::decimal_text_u64(*v);
                concat3(
                    "Expected schema version 2 or 3, but found ",
                    digits.as_str(),
                    ". This may indicate you need to upgrade your CLI version or plugin.",
                )
            },
            PluginFileError::SchemaVersion { found: None } => copy_str(
                "Expected schema version 2 or 3, but found no property. This may indicate you need to upgrade your CLI version or plugin.",
            ),
            PluginFileError::UnsupportedKind { kind } => concat3(
                "Unsupported plugin kind: ",
                kind.as_str(),
                "\nOnly process and deno plugins are supported by this version of dprint. Please upgrade your CLI.",
            ),
        }
    }
}

/// Checks the schema version and kind of a plugin manifest: the version must
/// be 2 or 3, and a kind, when there is one, `process` or `deno`.
pub fn verify_plugin_file(schema_version: Option<u64>, kind: Option<&str>) -> (r: Result<(), PluginFileError>)
    ensures
        !(schema_version == Some(2u64) || schema_version == Some(3u64)) ==> (r matches Err(e)
            && e matches PluginFileError::SchemaVersion { found } && found == schema_version),
        (schema_version == Some(2u64) || schema_version == Some(3u64)) ==> match kind {
            Some(k) if k@ != "process"@ && k@ != "deno"@ => (r matches Err(e)
                && e matches PluginFileError::UnsupportedKind { kind: x } && x@ == k@),
            _ => r is Ok,
        },
{
    let supported = match schema_version {
        Some(v) => v == 2 || v == 3,
        None => false,
    };
    if !supported {
        return Err(PluginFileError::SchemaVersion { found: schema_version });
    }
    if let Some(k) = kind {
        if !str_eq(k, "process") && !str_eq(k, "deno") {
            return Err(PluginFileError::UnsupportedKind { kind: copy_str(k) });
        }
    }
    Ok(())
}

/// The string in the `kind` field of the JSON object that a plugin
/// manifest's bytes hold, as `serde_json` reads the bytes; none when they
/// are not JSON, not an object, or have no such string field.
pub uninterp spec fn manifest_kind_field(bytes: Seq<u8>) -> Option<Seq<char>>;

/// Peeks at the `kind` field of a plugin manifest's JSON bytes: deno and
/// native process plugins share the `.json` extension, and this tells them
/// apart before the manifest is read for its kind. It calls
/// `serde_json::from_slice` and reads the field of the value; its result is
/// named [`manifest_kind_field`], and nothing more is stated of it.
#[verifier::external_body]
pub fn peek_plugin_kind(bytes: &[u8]) -> (r: Option<String>)
    ensures
        match r {
            Some(k) => manifest_kind_field(bytes@) == Some(k@),
            None => manifest_kind_field(bytes@) is None,
        },
{
    let value: serde_json::Value = serde_json::from_slice(bytes).ok()?;
    value.as_object()?.get("kind")?.as_str().map(|s| s.to_string())
}

/// What `serde_json::from_slice` reads from a plugin manifest's bytes into a
/// JSON value, as far as the checks before reading the manifest need it: the
/// `schemaVersion` field as an unsigned integer and the `kind` field as a
/// string, each none when the value is not an object or has no such field of
/// that type; or the parse error's message. It depends on the bytes alone.
pub uninterp spec fn manifest_schema_and_kind(bytes: Seq<u8>) -> Result<(Option<u64>, Option<Seq<char>>), Seq<char>>;

/// Parses a plugin manifest's bytes with `serde_json::from_slice` and reads
/// its `schemaVersion` (`as_u64`) and `kind` (`as_str`) fields. The result is
/// named [`manifest_schema_and_kind`]; nothing more is stated of it.
#[verifier::external_body]
fn manifest_fields(bytes: &[u8]) -> (r: Result<(Option<u64>, Option<String>), String>)
    ensures
        match manifest_schema_and_kind(bytes@) {
            Ok((v, k)) => r matches Ok(x) && x.0 == v && match k {
                Some(k) => x.1 matches Some(s) && s@ == k,
                None => x.1 is None,
            },
            Err(m) => r matches Err(e) && e@ == m,
        },
{
    let value: serde_json::Value = match serde_json::from_slice(bytes) {
        Ok(value) => value,
        Err(err) => return Err(err.to_string()),
    };
    let object = value.as_object();
    let schema_version = object.and_then(|o| o.get("schemaVersion")).and_then(|v| v.as_u64());
    let kind = object.and_then(|o| o.get("kind")).and_then(|v| v.as_str()).map(|s| s.to_string());
    Ok((schema_version, kind))
}

/// Why a process plugin's manifest cannot be read.
#[derive(Debug)]
pub enum ManifestError {
    /// The bytes are not JSON; the parser's message.
    Parse { message: String },
    /// The manifest's schema version or kind is not one this version reads.
    Invalid(PluginFileError),
}

impl ManifestError {
    /// The text that explains the error to the user.
    pub fn to_string(&self) -> (r: String)
        ensures
            match self {
                ManifestError::Parse { message } => r@ == "Error deserializing plugin file: "@ + message@
                    + "\n\nThis might mean you're using an old version of dprint."@,
                ManifestError::Invalid(e) => r@ == plugin_file_message(e),
            },
    {
        match self {
            ManifestError::Parse { message } => concat3(
                "Error deserializing plugin file: ",
                message.as_str(),
                "\n\nThis might mean you're using an old version of dprint.",
            ),
            ManifestError::Invalid(e) => e.to_string(),
        }
    }
}

/// Checks a process plugin's manifest bytes before the manifest is read:
/// they must parse as JSON, and the schema version and kind they hold must
/// pass [`verify_plugin_file`].
pub fn check_process_plugin_manifest(bytes: &[u8]) -> (r: Result<(), ManifestError>)
    ensures
        match manifest_schema_and_kind(bytes@) {
            Err(m) => r matches Err(e) && e matches ManifestError::Parse { message } && message@ == m,
            Ok((v, k)) => {
                &&& !(v == Some(2u64) || v == Some(3u64)) ==> (r matches Err(e) && e matches ManifestError::Invalid(
                    PluginFileError::SchemaVersion { found },
                ) && found == v)
                &&& (v == Some(2u64) || v == Some(3u64)) ==> match k {
                    Some(k) if k != "process"@ && k != "deno"@ => (r matches Err(e) && e matches ManifestError::Invalid(
                        PluginFileError::UnsupportedKind { kind: x },
                    ) && x@ == k),
                    _ => r is Ok,
                }
            },
        },
{
    match manifest_fields(bytes) {
        Err(message) => Err(ManifestError::Parse { message }),
        Ok((schema_version, kind)) => {
            let checked = match &kind {
                Some(k) => verify_plugin_file(schema_version, Some(k.as_str())),
                None => verify_plugin_file(schema_version, None),
            };
            match checked {
                Ok(()) => Ok(()),
                Err(e) => Err(ManifestError::Invalid(e)),
            }
        },
    }
}

/// The file name of a process plugin's executable: the plugin's name, with
/// `.exe` on Windows.
pub fn get_plugin_executable_file_name(plugin_name: &str, is_windows: bool) -> (r: String)
    ensures
        r@ == if is_windows {
            plugin_name@ + ".exe"@
        } else {
            plugin_name@
        },
{
    if is_windows {
        concat2(plugin_name, ".exe")
    } else {
        copy_str(plugin_name)
    }
}

/// The error when a process plugin's archive does not have the checksum its
/// manifest gives for it, with the checker's own explanation.
pub fn archive_checksum_error(reference: &str, mismatch: &str) -> (r: String)
    ensures
        r@ == "Invalid checksum found within process plugin's manifest file for '"@ + reference@
            + "'. This is likely a bug in the process plugin. Please report it.\n\n"@ + mismatch@,
{
    let head = concat3(
        "Invalid checksum found within process plugin's manifest file for '",
        reference,
        "'. This is likely a bug in the process plugin. Please report it.\n\n",
    );
    concat2(head.as_str(), mismatch)
}

/// The operating system a build is made for, as the environment names it:
/// glibc linux, musl linux, android, macos or windows.
pub open spec fn platform_os(p: Platform) -> Seq<char> {
    match p {
        Platform::LinuxX86_64 | Platform::LinuxAarch64 | Platform::LinuxRiscv64 | Platform::LinuxLoongarch64
        | Platform::LinuxPowerpc64 => "linux"@,
        Platform::LinuxX86_64Musl | Platform::LinuxAarch64Musl | Platform::LinuxRiscv64Musl
        | Platform::LinuxLoongarch64Musl | Platform::LinuxPowerpc64Musl => "linux-musl"@,
        Platform::AndroidX86_64 | Platform::AndroidAarch64 => "android"@,
        Platform::DarwinX86_64 | Platform::DarwinAarch64 => "macos"@,
        Platform::WindowsX86_64 | Platform::WindowsAarch64 => "windows"@,
    }
}

/// The CPU architecture a build is made for.
pub open spec fn platform_arch(p: Platform) -> Seq<char> {
    match p {
        Platform::LinuxX86_64 | Platform::LinuxX86_64Musl | Platform::AndroidX86_64 | Platform::DarwinX86_64
        | Platform::WindowsX86_64 => "x86_64"@,
        Platform::LinuxAarch64 | Platform::LinuxAarch64Musl | Platform::AndroidAarch64 | Platform::DarwinAarch64
        | Platform::WindowsAarch64 => "aarch64"@,
        Platform::LinuxRiscv64 | Platform::LinuxRiscv64Musl => "riscv64"@,
        Platform::LinuxLoongarch64 | Platform::LinuxLoongarch64Musl => "loongarch64"@,
        Platform::LinuxPowerpc64 | Platform::LinuxPowerpc64Musl => "powerpc64"@,
    }
}

proof fn lemma_first_build_in(f: &ProcessPluginFile, ps: Seq<Platform>)
    ensures
        first_build(f, ps) matches Some(p) ==> ps.contains(p) && build_for(f, p) is Some,
    decreases ps.len(),
{
    if ps.len() > 0 && !(build_for(f, ps[0]) is Some) {
        lemma_first_build_in(f, ps.drop_first());
        if let Some(p) = first_build(f, ps.drop_first()) {
            let k = choose|k: int| 0 <= k < ps.drop_first().len() && ps.drop_first()[k] == p;
            assert(ps[k + 1] == p);
        }
    }
}

/// The build chosen for a machine runs on it: it is made for the machine's
/// operating system (so a musl linux machine only ever gets a musl build,
/// and a glibc one a glibc build), and for its CPU architecture, or for
/// x86_64 on an aarch64 machine, which can run it. When the manifest has a
/// build made for the machine's own operating system and architecture, that
/// build is the one chosen.
pub proof fn law_chosen_build_runs_on_machine(f: &ProcessPluginFile, os: Seq<char>, arch: Seq<char>, native: Platform)
    ensures
        candidate_platforms(os, arch) matches Some(ps) ==> (first_build(f, ps) matches Some(p) ==> platform_os(p) == os
            && (platform_arch(p) == arch || (arch == "aarch64"@ && platform_arch(p) == "x86_64"@))),
        platform_os(native) == os && platform_arch(native) == arch && build_for(f, native) is Some ==> (
        candidate_platforms(os, arch) matches Some(ps) && first_build(f, ps) == Some(native)),
{
    if let Some(ps) = candidate_platforms(os, arch) {
        lemma_first_build_in(f, ps);
    }
    reveal_strlit("linux");
    reveal_strlit("linux-musl");
    reveal_strlit("android");
    reveal_strlit("macos");
    reveal_strlit("windows");
    reveal_strlit("x86_64");
    reveal_strlit("aarch64");
    reveal_strlit("riscv64");
    reveal_strlit("loongarch64");
    reveal_strlit("powerpc64");
    if platform_os(native) == os && platform_arch(native) == arch && build_for(f, native) is Some {
        assert("linux"@ != "linux-musl"@) by {
            assert("linux"@.len() != "linux-musl"@.len());
        }
        assert("linux"@ != "android"@) by {
            assert("linux"@[0] != "android"@[0]);
        }
        assert("linux"@ != "macos"@) by {
            assert("linux"@[0] != "macos"@[0]);
        }
        assert("linux"@ != "windows"@) by {
            assert("linux"@[0] != "windows"@[0]);
        }
        assert("linux-musl"@ != "android"@) by {
            assert("linux-musl"@[0] != "android"@[0]);
        }
        assert("linux-musl"@ != "macos"@) by {
            assert("linux-musl"@[0] != "macos"@[0]);
        }
        assert("linux-musl"@ != "windows"@) by {
            assert("linux-musl"@[0] != "windows"@[0]);
        }
        assert("android"@ != "macos"@) by {
            assert("android"@[0] != "macos"@[0]);
        }
        assert("android"@ != "windows"@) by {
            assert("android"@[0] != "windows"@[0]);
        }
        assert("macos"@ != "windows"@) by {
            assert("macos"@[0] != "windows"@[0]);
        }
        assert("x86_64"@ != "aarch64"@) by {
            assert("x86_64"@[0] != "aarch64"@[0]);
        }
        assert("x86_64"@ != "riscv64"@) by {
            assert("x86_64"@[0] != "riscv64"@[0]);
        }
        assert("x86_64"@ != "loongarch64"@) by {
            assert("x86_64"@[0] != "loongarch64"@[0]);
        }
        assert("x86_64"@ != "powerpc64"@) by {
            assert("x86_64"@[0] != "powerpc64"@[0]);
        }
        assert("aarch64"@ != "riscv64"@) by {
            assert("aarch64"@[0] != "riscv64"@[0]);
        }
        assert("aarch64"@ != "loongarch64"@) by {
            assert("aarch64"@[0] != "loongarch64"@[0]);
        }
        assert("aarch64"@ != "powerpc64"@) by {
            assert("aarch64"@[0] != "powerpc64"@[0]);
        }
        assert("riscv64"@ != "loongarch64"@) by {
            assert("riscv64"@[0] != "loongarch64"@[0]);
        }
        assert("riscv64"@ != "powerpc64"@) by {
            assert("riscv64"@[0] != "powerpc64"@[0]);
        }
        assert("loongarch64"@ != "powerpc64"@) by {
            assert("loongarch64"@[0] != "powerpc64"@[0]);
        }
    }
}

/// The build taken for a platform is the manifest's entry for exactly that
/// platform: a musl build is never read from a glibc entry, an aarch64 build
/// never from an x86_64 entry, and so on.
pub proof fn law_build_is_the_platforms_entry(f: &ProcessPluginFile)
    ensures
        build_for(f, Platform::LinuxX86_64) == f.linux_x86_64,
        build_for(f, Platform::LinuxX86_64Musl) == f.linux_x86_64_musl,
        build_for(f, Platform::LinuxAarch64) == f.linux_aarch64,
        build_for(f, Platform::LinuxAarch64Musl) == f.linux_aarch64_musl,
        build_for(f, Platform::LinuxRiscv64) == f.linux_riscv64,
        build_for(f, Platform::LinuxRiscv64Musl) == f.linux_riscv64_musl,
        build_for(f, Platform::LinuxLoongarch64) == f.linux_loongarch64,
        build_for(f, Platform::LinuxLoongarch64Musl) == f.linux_loongarch64_musl,
        build_for(f, Platform::LinuxPowerpc64) == f.linux_powerpc64,
        build_for(f, Platform::LinuxPowerpc64Musl) == f.linux_powerpc64_musl,
        build_for(f, Platform::AndroidX86_64) == f.android_x86_64,
        build_for(f, Platform::AndroidAarch64) == f.android_aarch64,
        build_for(f, Platform::DarwinX86_64) == f.darwin_x86_64,
        build_for(f, Platform::DarwinAarch64) == f.darwin_aarch64,
        build_for(f, Platform::WindowsX86_64) == f.windows_x64_64,
        build_for(f, Platform::WindowsAarch64) == f.windows_aarch64,
{
}

} // verus!
