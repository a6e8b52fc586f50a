//! Which configuration file a run uses: the order in which the places are
//! tried, and what happens when none has one.
use vstd::prelude::*;
use crate::text::{copy_str, concat2, concat3};
use crate::canonicalized_path_buf::{CanonicalizedPathBuf, canonical_join};
use crate::path::{keep_named, split_on};

verus! {

/// How configuration files are looked for, as the command line and the
/// environment say.
#[derive(Debug, Clone, Copy)]
pub struct DiscoveryMode {
    /// Only the global configuration is used.
    pub global: bool,
    /// The default: the current directory and its ancestors, then the
    /// global configuration.
    pub default: bool,
    /// Whether the current directory and its ancestors are searched.
    pub traverse_ancestors: bool,
}

/// What to look at next when finding the main configuration file.
#[derive(Debug, Clone, Copy, PartialEq, Eq, Structural)]
pub enum ConfigSearchStep {
    /// Resolve the path or url given with `--config`.
    UseConfigArg,
    /// Use the global configuration file, failing when there is none.
    RequireGlobal,
    /// Look in the start directory and then its ancestors.
    SearchAncestors,
    /// Use the global configuration file when there is one.
    TryGlobal,
    /// There is no configuration file.
    NoConfig,
}

/// The order in which the places that may hold the main configuration file
/// are tried: a `--config` argument wins; otherwise global discovery needs
/// the global file; otherwise the current directory and its ancestors are
/// searched when discovery allows it, and after them, with default
/// discovery and no `--plugins`, the global file.
pub open spec fn first_step(has_config_arg: bool, mode: DiscoveryMode, no_plugins_arg: bool) -> ConfigSearchStep {
    if has_config_arg {
        ConfigSearchStep::UseConfigArg
    } else if mode.global {
        ConfigSearchStep::RequireGlobal
    } else if mode.traverse_ancestors {
        ConfigSearchStep::SearchAncestors
    } else {
        after_ancestors(mode, no_plugins_arg)
    }
}

/// What is tried once the ancestors had no configuration file.
pub open spec fn after_ancestors(mode: DiscoveryMode, no_plugins_arg: bool) -> ConfigSearchStep {
    if mode.default && no_plugins_arg {
        ConfigSearchStep::TryGlobal
    } else {
        ConfigSearchStep::NoConfig
    }
}

/// The first place to look for the main configuration file (see
/// [`first_step`]).
pub fn main_config_first_step(has_config_arg: bool, mode: DiscoveryMode, no_plugins_arg: bool) -> (r: ConfigSearchStep)
    ensures
        r == first_step(has_config_arg, mode, no_plugins_arg),
{
    if has_config_arg {
        ConfigSearchStep::UseConfigArg
    } else if mode.global {
        ConfigSearchStep::RequireGlobal
    } else if mode.traverse_ancestors {
        ConfigSearchStep::SearchAncestors
    } else {
        main_config_after_ancestors(mode, no_plugins_arg)
    }
}

/// What to try once the search of the ancestors found nothing (see
/// [`after_ancestors`]).
pub fn main_config_after_ancestors(mode: DiscoveryMode, no_plugins_arg: bool) -> (r: ConfigSearchStep)
    ensures
        r == after_ancestors(mode, no_plugins_arg),
{
    if mode.default && no_plugins_arg {
        ConfigSearchStep::TryGlobal
    } else {
        ConfigSearchStep::NoConfig
    }
}

/// What the user is told when global discovery finds no global file.
pub fn global_config_not_found_message() -> (r: String)
    ensures
        r@ == "Could not find global dprint.json file. Create one with `dprint init --global`"@,
{
    copy_str("Could not find global dprint.json file. Create one with `dprint init --global`")
}

/// What the user is told when the system's configuration directory cannot
/// be found, with the reason.
pub fn system_config_dir_message(reason: &str) -> (r: String)
    ensures
        r@ == "Could not find system config directory. Maybe specify the DPRINT_CONFIG_DIR environment variable to say where to store the global dprint configuration file.: "@
            + reason@,
{
    concat2(
        "Could not find system config directory. Maybe specify the DPRINT_CONFIG_DIR environment variable to say where to store the global dprint configuration file.: ",
        reason,
    )
}

/// The name of the global configuration file in the global directory: the
/// first of `dprint.jsonc` and `dprint.json` that is there.
pub fn global_config_file_name(jsonc_exists: bool, json_exists: bool) -> (r: Option<String>)
    ensures
        jsonc_exists ==> (r matches Some(n) && n@ == "dprint.jsonc"@),
        !jsonc_exists && json_exists ==> (r matches Some(n) && n@ == "dprint.json"@),
        !jsonc_exists && !json_exists ==> r is None,
{
    if jsonc_exists {
        Some(copy_str("dprint.jsonc"))
    } else if json_exists {
        Some(copy_str("dprint.json"))
    } else {
        None
    }
}

/// What a `fmt` run does with a configuration file that is the global one.
#[derive(Debug, PartialEq, Eq, Structural)]
pub enum GlobalFormatGuard {
    /// Format without asking.
    Proceed,
    /// Ask the user whether to format the directory anyway.
    Confirm,
    /// Refuse, as no one can be asked.
    Refuse,
}

/// Whether a `fmt` run that found only the global configuration asks first:
/// it does unless it is no `fmt`, files need not be found, patterns or
/// include overrides name what to format, or global discovery was asked for
/// explicitly; when it would ask but no one can answer, it refuses.
pub fn global_format_guard(
    is_global_config: bool,
    is_fmt: bool,
    allow_no_files: bool,
    has_include_patterns: bool,
    has_include_overrides: bool,
    global_discovery_requested: bool,
    interactive: bool,
) -> (r: GlobalFormatGuard)
    ensures
        ({
            let asks = is_global_config && is_fmt && !allow_no_files && !has_include_patterns && !has_include_overrides
                && !global_discovery_requested;
            &&& !asks ==> r == GlobalFormatGuard::Proceed
            &&& asks && interactive ==> r == GlobalFormatGuard::Confirm
            &&& asks && !interactive ==> r == GlobalFormatGuard::Refuse
        }),
{
    let asks = is_global_config && is_fmt && !allow_no_files && !has_include_patterns && !has_include_overrides
        && !global_discovery_requested;
    if !asks {
        GlobalFormatGuard::Proceed
    } else if interactive {
        GlobalFormatGuard::Confirm
    } else {
        GlobalFormatGuard::Refuse
    }
}

/// What the user is told when a run refuses to format a directory without
/// its own configuration file.
pub fn refuse_global_format_message() -> (r: String)
    ensures
        r@ == "Did not format directory without configuration file. Run `dprint fmt .` or `dprint fmt --config-discovery=global` to bypass this error."@,
{
    copy_str(
        "Did not format directory without configuration file. Run `dprint fmt .` or `dprint fmt --config-discovery=global` to bypass this error.",
    )
}

/// What a run without any configuration file does.
#[derive(Debug)]
pub enum NoConfigOutcome {
    /// Go on with an empty configuration, as `--plugins` says what to use;
    /// it stands for a `dprint.json` in the current directory, which is its
    /// base.
    EmptyConfig { config_path: CanonicalizedPathBuf },
    /// Fail: no configuration file was found where one was looked for; the
    /// error names `dprint.json` in the current directory.
    NotFound { config_path: CanonicalizedPathBuf },
    /// Fail: discovery was turned off and nothing says what to use.
    DiscoveryDisabled,
}

/// What a run without any configuration file does: with `--plugins` it
/// goes on with an empty configuration; else it fails, saying that none was
/// found when the ancestors were searched, or that discovery was off.
pub fn no_config_outcome(has_plugins_arg: bool, traverse_ancestors: bool, cwd: &CanonicalizedPathBuf) -> (r: NoConfigOutcome)
    ensures
        has_plugins_arg ==> (r matches NoConfigOutcome::EmptyConfig { config_path } && config_path@ == canonical_join(
            cwd@,
            "dprint.json"@,
        )),
        !has_plugins_arg && traverse_ancestors ==> (r matches NoConfigOutcome::NotFound { config_path } && config_path@
            == canonical_join(cwd@, "dprint.json"@)),
        !has_plugins_arg && !traverse_ancestors ==> r is DiscoveryDisabled,
{
    proof {
        reveal_strlit("dprint.json");
        let name = "dprint.json"@;
        assert(split_on(name, '/') == seq![name]) by {
            crate::canonicalized_path_buf::lemma_split_on_no_sep(name, '/');
        }
        assert(name.len() == 11 && name[0] == 'd');
        assert(name != Seq::<char>::empty());
        assert(name != seq!['.']) by {
            assert(name.len() != seq!['.'].len());
        }
        assert(crate::path::is_named(name));
        assert(seq![name].drop_last() =~= Seq::<Seq<char>>::empty());
        assert(keep_named(Seq::<Seq<char>>::empty()) == Seq::<Seq<char>>::empty());
        assert(keep_named(seq![name]) =~= seq![name]);
        assert(crate::canonicalized_path_buf::join_components(cwd@, Seq::<Seq<char>>::empty()) == cwd@);
        assert(seq![name].last() == name);
        assert(crate::canonicalized_path_buf::join_components(cwd@, seq![name]) == canonical_join(cwd@, name));
    }
    if has_plugins_arg {
        NoConfigOutcome::EmptyConfig { config_path: cwd.join_panic_relative("dprint.json") }
    } else if traverse_ancestors {
        NoConfigOutcome::NotFound { config_path: cwd.join_panic_relative("dprint.json") }
    } else {
        NoConfigOutcome::DiscoveryDisabled
    }
}

/// The prompt that asks whether to format a directory that is not a
/// project: the answer when there is one, else the choices and a hint.
pub fn confirm_format_prompt(directory: &str, selected: Option<bool>) -> (r: String)
    ensures
        r@ == "Warning You're not in a dprint project. Format '"@ + directory@ + "' anyway? "@ + match selected {
            Some(true) => "Y"@,
            Some(false) => "N"@,
            None => "(Y/n) \u{2588}\n\nHint: Specify the directory to bypass this prompt in the future (ex. `dprint fmt .`)"@,
        },
{
    let head = concat3("Warning You're not in a dprint project. Format '", directory, "' anyway? ");
    match selected {
        Some(true) => concat2(head.as_str(), "Y"),
        Some(false) => concat2(head.as_str(), "N"),
        None => concat2(
            head.as_str(),
            "(Y/n) \u{2588}\n\nHint: Specify the directory to bypass this prompt in the future (ex. `dprint fmt .`)",
        ),
    }
}

} // verus!
