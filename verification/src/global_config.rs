//! The global part of a configuration file: the plain values at its root,
//! and what its author is told about the rest.
use vstd::prelude::*;
use crate::configuration::{
    ConfigKeyValue, ConfigMapValue, MapValueView, ValueView, config_map_view, key_map_view, key_index, key_view,
};
use crate::text::{copy_str, concat2, concat3, str_eq};
use crate::path::{path_join, spec_path_join};

verus! {

/// A problem with one property of a configuration.
#[derive(Debug)]
pub struct ConfigurationDiagnostic {
    pub property_name: String,
    pub message: String,
}

impl ConfigurationDiagnostic {
    /// The text shown for the diagnostic: the message, then the property in
    /// parentheses.
    pub fn to_string(&self) -> (r: String)
        ensures
            r@ == self.message@ + " ("@ + self.property_name@ + ")"@,
    {
        let head = concat3(self.message.as_str(), " (", self.property_name.as_str());
        concat2(head.as_str(), ")")
    }
}

/// A problem with the global configuration: a property that is not a global
/// setting, or another problem with a value.
#[derive(Debug)]
pub enum GlobalConfigDiagnostic {
    UnknownProperty(ConfigurationDiagnostic),
    Other(ConfigurationDiagnostic),
}

impl GlobalConfigDiagnostic {
    /// The text shown for the diagnostic it holds.
    pub fn to_string(&self) -> (r: String)
        ensures
            match self {
                GlobalConfigDiagnostic::UnknownProperty(d) => r@ == d.message@ + " ("@ + d.property_name@ + ")"@,
                GlobalConfigDiagnostic::Other(d) => r@ == d.message@ + " ("@ + d.property_name@ + ")"@,
            },
    {
        match self {
            GlobalConfigDiagnostic::UnknownProperty(d) => d.to_string(),
            GlobalConfigDiagnostic::Other(d) => d.to_string(),
        }
    }
}

/// The root's entries without the first one named `key`, removed the way
/// an ordered map's `swap_remove` does: the last entry takes its place.
pub open spec fn without_key(m: Seq<(Seq<char>, MapValueView)>, key: Seq<char>) -> Seq<(Seq<char>, MapValueView)> {
    match key_index(m, key) {
        Some(i) => if i == m.len() - 1 {
            m.drop_last()
        } else {
            m.update(i, m.last()).drop_last()
        },
        None => m,
    }
}

/// The plain values among the root's entries, in order.
pub open spec fn plain_values(m: Seq<(Seq<char>, MapValueView)>) -> Seq<(Seq<char>, ValueView)>
    decreases m.len(),
{
    if m.len() == 0 {
        Seq::empty()
    } else {
        let rest = plain_values(m.drop_first());
        match m[0].1 {
            MapValueView::KeyValue(v) => seq![(m[0].0, v)] + rest,
            _ => rest,
        }
    }
}

/// The names of the root's entries that are not plain values, in order.
pub open spec fn other_names(m: Seq<(Seq<char>, MapValueView)>) -> Seq<Seq<char>>
    decreases m.len(),
{
    if m.len() == 0 {
        Seq::empty()
    } else {
        let rest = other_names(m.drop_first());
        match m[0].1 {
            MapValueView::KeyValue(_) => rest,
            _ => seq![m[0].0] + rest,
        }
    }
}

/// What is said of a root entry that is not a plain value.
pub open spec fn unexpected_property_message() -> Seq<char> {
    "Unexpected non-string, boolean, or int property"@
}

/// Splits the root's entries for the global configuration: the `$schema`
/// property is left out (see [`without_key`]), the plain values are the global configuration, and
/// each other entry is an unknown property.
pub fn global_config_entries(config_map: Vec<(String, ConfigMapValue)>) -> (r: (
    Vec<(String, ConfigKeyValue)>,
    Vec<GlobalConfigDiagnostic>,
))
    ensures
        ({
            let m = without_key(config_map_view(config_map@), "$schema"@);
            &&& key_map_view(r.0@) == plain_values(m)
            &&& r.1@.len() == other_names(m).len()
            &&& forall|i: int|
                0 <= i < r.1@.len() ==> (#[trigger] r.1@[i] matches GlobalConfigDiagnostic::UnknownProperty(d)
                    && d.property_name@ == other_names(m)[i] && d.message@ == unexpected_property_message())
        }),
{
    let mut m = config_map;
    let ghost before = config_map_view(m@);
    proof {
        crate::configuration::lemma_key_index_same_keys(before, key_view(m@), "$schema"@);
    }
    let found = crate::configuration::find_key(&m, "$schema");
    proof {
        crate::configuration::lemma_key_index(before, "$schema"@);
    }
    if let Some(i) = found {
        let ghost old_m = m@;
        let last = m.pop().unwrap();
        if i < m.len() {
            m.set(i, last);
            assert(config_map_view(m@) =~= before.update(i as int, before.last()).drop_last());
        } else {
            assert(config_map_view(m@) =~= before.drop_last());
        }
    }
    let ghost start = config_map_view(m@);
    assert(start == without_key(before, "$schema"@));
    let mut values: Vec<(String, ConfigKeyValue)> = Vec::new();
    let mut diagnostics: Vec<GlobalConfigDiagnostic> = Vec::new();
    while m.len() > 0
        invariant
            plain_values(start) == key_map_view(values@) + plain_values(config_map_view(m@)),
            other_names(start).len() == diagnostics@.len() + other_names(config_map_view(m@)).len(),
            forall|i: int|
                0 <= i < diagnostics@.len() ==> (#[trigger] diagnostics@[i] matches GlobalConfigDiagnostic::UnknownProperty(
                    d,
                ) && d.property_name@ == other_names(start)[i] && d.message@ == unexpected_property_message()),
            forall|i: int|
                0 <= i < other_names(config_map_view(m@)).len() ==> other_names(start)[diagnostics@.len() + i]
                    == #[trigger] other_names(config_map_view(m@))[i],
        decreases m@.len(),
    {
        let ghost view_before = config_map_view(m@);
        let (key, value) = m.remove(0);
        assert(config_map_view(m@) =~= view_before.drop_first());
        match value {
            ConfigMapValue::KeyValue(v) => {
                let ghost vs = key_map_view(values@);
                let ghost vv = v@;
                let ghost kk = key@;
                values.push((key, v));
                assert(key_map_view(values@) =~= vs.push((kk, vv)));
                assert(key_map_view(values@) + plain_values(config_map_view(m@)) =~= vs + plain_values(view_before));
            },
            _ => {
                let ghost n = diagnostics@.len();
                assert(other_names(view_before)[0] == key@);
                diagnostics.push(
                    GlobalConfigDiagnostic::UnknownProperty(
                        ConfigurationDiagnostic {
                            property_name: key,
                            message: copy_str("Unexpected non-string, boolean, or int property"),
                        },
                    ),
                );
                assert forall|i: int| 0 <= i < other_names(config_map_view(m@)).len() implies other_names(start)[diagnostics@.len() + i]
                    == #[trigger] other_names(config_map_view(m@))[i] by {
                    assert(other_names(view_before)[i + 1] == other_names(config_map_view(m@))[i]);
                }
            },
        }
    }
    assert(plain_values(config_map_view(m@)) =~= Seq::<(Seq<char>, ValueView)>::empty());
    assert(key_map_view(values@) + Seq::<(Seq<char>, ValueView)>::empty() =~= key_map_view(values@));
    (values, diagnostics)
}

/// The value of an environment variable naming a folder, when it is set and
/// not empty.
pub fn resolve_env_var_folder(value: Option<&str>) -> (r: Option<String>)
    ensures
        match value {
            Some(v) => if v@.len() > 0 {
                r matches Some(s) && s@ == v@
            } else {
                r is None
            },
            None => r is None,
        },
{
    match value {
        Some(v) => if v.unicode_len() > 0 {
            Some(copy_str(v))
        } else {
            None
        },
        None => None,
    }
}

/// What the system says about where configuration goes on a machine.
#[derive(Debug)]
pub struct SystemConfigDirs {
    /// The operating system's name, such as `macos` or `linux`.
    pub os: String,
    /// The `XDG_CONFIG_HOME` variable.
    pub xdg_config_home: Option<String>,
    /// The system's configuration directory.
    pub config_dir: Option<String>,
    /// Whether the system's configuration directory holds a `dprint`
    /// directory.
    pub config_dir_has_dprint: bool,
    /// The user's home directory.
    pub home_dir: Option<String>,
}

/// The configuration directory on macOS: `XDG_CONFIG_HOME` when it is set
/// and not empty, else the system's configuration directory when it already
/// holds a `dprint` directory, else `.config` in the home directory.
pub open spec fn spec_mac_config_dir(
    xdg_config_home: Option<Seq<char>>,
    config_dir: Option<Seq<char>>,
    config_dir_has_dprint: bool,
    home_dir: Option<Seq<char>>,
) -> Option<Seq<char>> {
    if xdg_config_home matches Some(x) && x.len() > 0 {
        xdg_config_home
    } else if config_dir is Some && config_dir_has_dprint {
        config_dir
    } else {
        match home_dir {
            Some(h) => Some(spec_path_join(h, ".config"@)),
            None => None,
        }
    }
}

pub open spec fn opt_view(o: Option<String>) -> Option<Seq<char>> {
    match o {
        Some(s) => Some(s@),
        None => None,
    }
}

/// The configuration directory on macOS (see [`spec_mac_config_dir`]).
pub fn resolve_mac_system_config_dir(dirs: &SystemConfigDirs) -> (r: Option<String>)
    ensures
        opt_view(r) == spec_mac_config_dir(
            opt_view(dirs.xdg_config_home),
            opt_view(dirs.config_dir),
            dirs.config_dir_has_dprint,
            opt_view(dirs.home_dir),
        ),
{
    let xdg = match &dirs.xdg_config_home {
        Some(x) => resolve_env_var_folder(Some(x.as_str())),
        None => None,
    };
    if let Some(x) = xdg {
        return Some(x);
    }
    if let Some(c) = &dirs.config_dir {
        if dirs.config_dir_has_dprint {
            return Some(copy_str(c.as_str()));
        }
    }
    match &dirs.home_dir {
        Some(h) => Some(path_join(h.as_str(), ".config")),
        None => None,
    }
}

/// The system's configuration directory: on macOS as
/// [`spec_mac_config_dir`] says, elsewhere what the system says.
pub fn resolve_system_config_dir(dirs: &SystemConfigDirs) -> (r: Option<String>)
    ensures
        opt_view(r) == if dirs.os@ == "macos"@ {
            spec_mac_config_dir(
                opt_view(dirs.xdg_config_home),
                opt_view(dirs.config_dir),
                dirs.config_dir_has_dprint,
                opt_view(dirs.home_dir),
            )
        } else {
            opt_view(dirs.config_dir)
        },
{
    if str_eq(dirs.os.as_str(), "macos") {
        resolve_mac_system_config_dir(dirs)
    } else {
        match &dirs.config_dir {
            Some(c) => Some(copy_str(c.as_str())),
            None => None,
        }
    }
}

} // verus!
