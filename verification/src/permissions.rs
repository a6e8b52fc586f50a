//! Permissions of deno plugins: the map of granted permissions, how it turns
//! into deno's command line flags, and the check that a plugin's required
//! permissions were granted.
use vstd::prelude::*;
use crate::path::{path_join, spec_path_join};
use crate::init_config::contains_string;
use crate::text::{join, join_strings, concat2, concat3, copy_str, seq_lt, str_eq, str_lt, lemma_seq_lt_irreflexive, lemma_seq_lt_total, lemma_seq_lt_transitive};

verus! {

/// A permission value in the deno permission model.
///
/// - `Boolean(true)` means allow all (e.g., `--allow-env`)
/// - `Boolean(false)` means deny (omit the flag)
/// - `Scoped(vec)` means scoped access (e.g., `--allow-read=.,/tmp`)
#[derive(Debug)]
pub enum DenoPermissionValue {
    Boolean(bool),
    Scoped(Vec<String>),
}

/// The mathematical value of a [`DenoPermissionValue`].
pub enum PermissionValue {
    Boolean(bool),
    Scoped(Seq<Seq<char>>),
}

impl View for DenoPermissionValue {
    type V = PermissionValue;

    open spec fn view(&self) -> PermissionValue {
        match self {
            DenoPermissionValue::Boolean(b) => PermissionValue::Boolean(*b),
            DenoPermissionValue::Scoped(v) => PermissionValue::Scoped(v.deep_view()),
        }
    }
}

/// A copy of a list of strings.
pub fn copy_strings(v: &Vec<String>) -> (r: Vec<String>)
    ensures
        r.deep_view() == v.deep_view(),
{
    let mut r: Vec<String> = Vec::new();
    let mut i: usize = 0;
    while i < v.len()
        invariant
            i <= v@.len(),
            r@.len() == i,
            forall|j: int| 0 <= j < i ==> #[trigger] r@[j]@ == v@[j]@,
        decreases v@.len() - i,
    {
        r.push(copy_str(v[i].as_str()));
        i = i + 1;
    }
    assert(r.deep_view() =~= v.deep_view());
    r
}

impl DenoPermissionValue {
    /// A copy of this value.
    pub fn duplicate(&self) -> (r: DenoPermissionValue)
        ensures
            r@ == self@,
    {
        match self {
            DenoPermissionValue::Boolean(b) => DenoPermissionValue::Boolean(*b),
            DenoPermissionValue::Scoped(v) => DenoPermissionValue::Scoped(copy_strings(v)),
        }
    }
}

/// The keys are in strictly increasing order, so each occurs once.
pub open spec fn keys_sorted<V>(s: Seq<(Seq<char>, V)>) -> bool {
    forall|i: int, j: int| 0 <= i < j < s.len() ==> seq_lt(#[trigger] s[i].0, #[trigger] s[j].0)
}

/// The value stored under `key`, if any.
pub open spec fn lookup<V>(s: Seq<(Seq<char>, V)>, key: Seq<char>) -> Option<V> {
    if exists|i: int| 0 <= i < s.len() && #[trigger] s[i].0 == key {
        Some(s[choose|i: int| 0 <= i < s.len() && #[trigger] s[i].0 == key].1)
    } else {
        None
    }
}

/// In a sequence with sorted keys, the lookup of an entry's key is its value.
pub proof fn lemma_lookup_at<V>(s: Seq<(Seq<char>, V)>, i: int)
    requires
        keys_sorted(s),
        0 <= i < s.len(),
    ensures
        lookup(s, s[i].0) == Some(s[i].1),
{
    let k = s[i].0;
    assert(s[i].0 == k);
    let j = choose|j: int| 0 <= j < s.len() && #[trigger] s[j].0 == k;
    lemma_seq_lt_irreflexive(k);
    if j < i {
        assert(seq_lt(s[j].0, s[i].0));
    } else if i < j {
        assert(seq_lt(s[i].0, s[j].0));
    }
    assert(j == i);
}

/// Permissions for a deno plugin, ordered by key.
///
/// Runtime permission keys: `env`, `read`, `write`, `net`, `run`, `ffi`, `sys`.
/// Install-time key: `allowScripts` (npm packages needing lifecycle scripts).
#[derive(Debug)]
pub struct DenoPermissions {
    entries: Vec<(String, DenoPermissionValue)>,
}

impl View for DenoPermissions {
    type V = Seq<(Seq<char>, PermissionValue)>;

    closed spec fn view(&self) -> Seq<(Seq<char>, PermissionValue)> {
        self.entries@.map_values(|e: (String, DenoPermissionValue)| (e.0@, e.1@))
    }
}

impl DenoPermissions {
    #[verifier::type_invariant]
    pub closed spec fn inv(&self) -> bool {
        keys_sorted(self@)
    }

    /// No permissions.
    pub fn new() -> (r: DenoPermissions)
        ensures
            r@ == Seq::<(Seq<char>, PermissionValue)>::empty(),
    {
        let r = DenoPermissions { entries: Vec::new() };
        assert(r@ =~= Seq::<(Seq<char>, PermissionValue)>::empty());
        r
    }

    /// The permissions are ordered by key with each key once.
    pub proof fn lemma_sorted(self)
        requires
            self.inv(),
        ensures
            keys_sorted(self@),
    {
    }

    /// The number of permissions.
    pub fn len(&self) -> (r: usize)
        ensures
            r == self@.len(),
    {
        self.entries.len()
    }

    /// The key and value of the `i`th permission in key order.
    pub fn entry(&self, i: usize) -> (r: (&String, &DenoPermissionValue))
        requires
            i < self@.len(),
        ensures
            r.0@ == self@[i as int].0,
            r.1@ == self@[i as int].1,
    {
        let e = &self.entries[i];
        (&e.0, &e.1)
    }

    /// Sets the value of `key`, replacing any value it had.
    pub fn insert(&mut self, key: String, value: DenoPermissionValue)
        ensures
            forall|k: Seq<char>|
                #[trigger] lookup(final(self)@, k) == (if k == key@ {
                    Some(value@)
                } else {
                    lookup(old(self)@, k)
                }),
    {
        proof {
            use_type_invariant(&*self);
        }
        let ghost old_view = self@;
        let mut entries: Vec<(String, DenoPermissionValue)> = Vec::new();
        std::mem::swap(&mut entries, &mut self.entries);
        let ghost ev = entries@.map_values(|e: (String, DenoPermissionValue)| (e.0@, e.1@));
        assert(ev == old_view);
        let mut i: usize = 0;
        while i < entries.len() && str_lt(entries[i].0.as_str(), key.as_str())
            invariant
                ev == entries@.map_values(|e: (String, DenoPermissionValue)| (e.0@, e.1@)),
                keys_sorted(ev),
                i <= entries@.len(),
                forall|j: int| 0 <= j < i ==> seq_lt(#[trigger] ev[j].0, key@),
            decreases entries@.len() - i,
        {
            i = i + 1;
        }
        let ghost key_view = key@;
        let ghost value_view = value@;
        if i < entries.len() && str_eq(entries[i].0.as_str(), key.as_str()) {
            entries.set(i, (key, value));
            let ghost nv = entries@.map_values(|e: (String, DenoPermissionValue)| (e.0@, e.1@));
            assert(nv =~= ev.update(i as int, (key_view, value_view)));
            assert forall|a: int| 0 <= a < nv.len() implies #[trigger] nv[a].0 == ev[a].0 by {}
            assert forall|a: int, b: int| 0 <= a < b < nv.len() implies seq_lt(
                #[trigger] nv[a].0,
                #[trigger] nv[b].0,
            ) by {
                assert(seq_lt(ev[a].0, ev[b].0));
            }
            assert forall|k: Seq<char>| #[trigger]
                lookup(nv, k) == (if k == key_view {
                    Some(value_view)
                } else {
                    lookup(ev, k)
                }) by {
                if k == key_view {
                    lemma_lookup_at(nv, i as int);
                } else {
                    if exists|j: int| 0 <= j < ev.len() && #[trigger] ev[j].0 == k {
                        let j = choose|j: int| 0 <= j < ev.len() && #[trigger] ev[j].0 == k;
                        lemma_lookup_at(ev, j);
                        lemma_lookup_at(nv, j);
                    } else {
                        assert(!exists|j: int| 0 <= j < nv.len() && #[trigger] nv[j].0 == k) by {
                            if exists|j: int| 0 <= j < nv.len() && #[trigger] nv[j].0 == k {
                                let j = choose|j: int| 0 <= j < nv.len() && #[trigger] nv[j].0 == k;
                                assert(ev[j].0 == k);
                            }
                        }
                    }
                }
            }
        } else {
            proof {
                if i < entries@.len() {
                    lemma_seq_lt_total(ev[i as int].0, key_view);
                }
            }
            entries.insert(i, (key, value));
            let ghost nv = entries@.map_values(|e: (String, DenoPermissionValue)| (e.0@, e.1@));
            assert(nv =~= ev.insert(i as int, (key_view, value_view)));
            assert forall|a: int, b: int| 0 <= a < b < nv.len() implies seq_lt(
                #[trigger] nv[a].0,
                #[trigger] nv[b].0,
            ) by {
                if b == i {
                } else if a == i {
                    if b - 1 > i {
                        lemma_seq_lt_transitive(key_view, ev[i as int].0, ev[b - 1].0);
                    }
                } else if a < i && b > i {
                    assert(seq_lt(ev[a].0, key_view));
                    if b - 1 > i {
                        lemma_seq_lt_transitive(key_view, ev[i as int].0, ev[b - 1].0);
                    }
                    lemma_seq_lt_transitive(ev[a].0, key_view, ev[b - 1].0);
                } else if a > i {
                    assert(seq_lt(ev[a - 1].0, ev[b - 1].0));
                } else {
                    assert(seq_lt(ev[a].0, ev[b].0));
                }
            }
            assert forall|k: Seq<char>| #[trigger]
                lookup(nv, k) == (if k == key_view {
                    Some(value_view)
                } else {
                    lookup(ev, k)
                }) by {
                if k == key_view {
                    lemma_lookup_at(nv, i as int);
                } else {
                    if exists|j: int| 0 <= j < ev.len() && #[trigger] ev[j].0 == k {
                        let j = choose|j: int| 0 <= j < ev.len() && #[trigger] ev[j].0 == k;
                        lemma_lookup_at(ev, j);
                        if j < i {
                            lemma_lookup_at(nv, j);
                        } else {
                            assert(nv[j + 1] == ev[j]);
                            lemma_lookup_at(nv, j + 1);
                        }
                    } else {
                        assert(!exists|j: int| 0 <= j < nv.len() && #[trigger] nv[j].0 == k) by {
                            if exists|j: int| 0 <= j < nv.len() && #[trigger] nv[j].0 == k {
                                let j = choose|j: int| 0 <= j < nv.len() && #[trigger] nv[j].0 == k;
                                if j < i {
                                    assert(ev[j].0 == k);
                                } else if j > i {
                                    assert(ev[j - 1].0 == k);
                                }
                            }
                        }
                    }
                }
            }
        }
        self.entries = entries;
    }

    /// The value of `key`, if it has one.
    pub fn get(&self, key: &str) -> (r: Option<&DenoPermissionValue>)
        ensures
            match r {
                Some(v) => lookup(self@, key@) == Some(v@),
                None => lookup(self@, key@) is None,
            },
    {
        proof {
            use_type_invariant(self);
        }
        let ghost ev = self@;
        let mut i: usize = 0;
        while i < self.entries.len()
            invariant
                ev == self@,
                ev == self.entries@.map_values(|e: (String, DenoPermissionValue)| (e.0@, e.1@)),
                keys_sorted(ev),
                i <= self.entries@.len(),
                forall|j: int| 0 <= j < i ==> #[trigger] ev[j].0 != key@,
            decreases self.entries@.len() - i,
        {
            if str_eq(self.entries[i].0.as_str(), key) {
                proof {
                    lemma_lookup_at(ev, i as int);
                }
                return Some(&self.entries[i].1);
            }
            i = i + 1;
        }
        None
    }
}


/// The flag that grants a permission in full.
pub open spec fn allow_flag(key: Seq<char>) -> Seq<char> {
    "--allow-"@ + key
}

/// The flags for one runtime permission key, given its value, when the plugin
/// lives in `dir`. `read` and `write` always reach the plugin's own directory.
pub open spec fn deno_args_for_key(
    key: Seq<char>,
    value: Option<PermissionValue>,
    dir: Seq<char>,
) -> Seq<Seq<char>> {
    let read_or_write = key == "read"@ || key == "write"@;
    let dir_only = if read_or_write {
        seq![allow_flag(key) + "="@ + dir]
    } else {
        Seq::empty()
    };
    match value {
        Some(PermissionValue::Boolean(b)) => if b {
            seq![allow_flag(key)]
        } else {
            dir_only
        },
        Some(PermissionValue::Scoped(scopes)) => if scopes.len() > 0 {
            if read_or_write {
                seq![allow_flag(key) + "="@ + join(scopes.push(dir), ","@)]
            } else {
                seq![allow_flag(key) + "="@ + join(scopes, ","@)]
            }
        } else {
            dir_only
        },
        None => dir_only,
    }
}

/// The deno flags for the runtime permissions, in the order `env`, `read`,
/// `write`, `net`, `run`, `ffi`, `sys`.
pub open spec fn spec_deno_args(
    perms: Seq<(Seq<char>, PermissionValue)>,
    dir: Seq<char>,
) -> Seq<Seq<char>> {
    deno_args_for_key("env"@, lookup(perms, "env"@), dir) + deno_args_for_key(
        "read"@,
        lookup(perms, "read"@),
        dir,
    ) + deno_args_for_key("write"@, lookup(perms, "write"@), dir) + deno_args_for_key(
        "net"@,
        lookup(perms, "net"@),
        dir,
    ) + deno_args_for_key("run"@, lookup(perms, "run"@), dir) + deno_args_for_key(
        "ffi"@,
        lookup(perms, "ffi"@),
        dir,
    ) + deno_args_for_key("sys"@, lookup(perms, "sys"@), dir)
}

fn push_args_for_key(args: &mut Vec<String>, key: &str, permissions: &DenoPermissions, dir: &str)
    ensures
        final(args).deep_view() == old(args).deep_view() + deno_args_for_key(
            key@,
            lookup(permissions@, key@),
            dir@,
        ),
{
    let ghost old_args = args.deep_view();
    let read_or_write = str_eq(key, "read") || str_eq(key, "write");
    let value = permissions.get(key);
    let ghost expected = deno_args_for_key(key@, lookup(permissions@, key@), dir@);
    let mut pushed = false;
    match value {
        Some(DenoPermissionValue::Boolean(b)) => {
            if *b {
                let flag = concat2("--allow-", key);
                args.push(flag);
                pushed = true;
                assert(expected == seq![flag@]);
                assert(args.deep_view() =~= old_args + expected);
            }
        },
        Some(DenoPermissionValue::Scoped(scopes)) => {
            if scopes.len() > 0 {
                let mut all = copy_strings(scopes);
                if read_or_write {
                    all.push(copy_str(dir));
                    assert(all.deep_view() =~= scopes.deep_view().push(dir@));
                }
                let joined = join_strings(&all, ",");
                let mut flag = concat2("--allow-", key);
                flag.append("=");
                flag.append(joined.as_str());
                assert(expected == seq![flag@]);
                args.push(flag);
                pushed = true;
                assert(args.deep_view() =~= old_args + expected);
            }
        },
        None => {},
    }
    if !pushed {
        if read_or_write {
            let mut f = concat2("--allow-", key);
            f.append("=");
            f.append(dir);
            assert(expected == seq![f@]);
            args.push(f);
            assert(args.deep_view() =~= old_args + expected);
        } else {
            assert(expected =~= Seq::<Seq<char>>::empty());
            assert(args.deep_view() =~= old_args + expected);
        }
    }
}

/// Converts structured permissions to deno CLI args.
///
/// The `plugin_dir` is always included in `--allow-read` and `--allow-write`
/// scopes so the plugin can access its own directory.
pub fn permissions_to_deno_args(permissions: &DenoPermissions, plugin_dir: &str) -> (r: Vec<String>)
    ensures
        r.deep_view() == spec_deno_args(permissions@, plugin_dir@),
{
    let mut args: Vec<String> = Vec::new();
    assert(args.deep_view() =~= Seq::<Seq<char>>::empty());
    push_args_for_key(&mut args, "env", permissions, plugin_dir);
    push_args_for_key(&mut args, "read", permissions, plugin_dir);
    push_args_for_key(&mut args, "write", permissions, plugin_dir);
    push_args_for_key(&mut args, "net", permissions, plugin_dir);
    push_args_for_key(&mut args, "run", permissions, plugin_dir);
    push_args_for_key(&mut args, "ffi", permissions, plugin_dir);
    push_args_for_key(&mut args, "sys", permissions, plugin_dir);
    assert(args.deep_view() =~= spec_deno_args(permissions@, plugin_dir@));
    args
}


/// Returns the default deno permissions (used when neither manifest nor user config specifies any).
pub fn default_deno_permissions() -> (r: DenoPermissions)
    ensures
        lookup(r@, "env"@) == Some(PermissionValue::Boolean(true)),
        lookup(r@, "read"@) == Some(PermissionValue::Boolean(true)),
        forall|k: Seq<char>|
            k != "env"@ && k != "read"@ ==> #[trigger] lookup(r@, k) is None,
{
    let mut permissions = DenoPermissions::new();
    permissions.insert(copy_str("env"), DenoPermissionValue::Boolean(true));
    permissions.insert(copy_str("read"), DenoPermissionValue::Boolean(true));
    permissions
}

/// Builds the full list of pre_args for launching a deno plugin: `run`,
/// `--config=<plugin_dir>/deno.json`, the permission flags and the script path.
pub fn build_deno_pre_args(permissions: &DenoPermissions, plugin_dir: &str, main_ts_path: &str) -> (r:
    Vec<String>)
    ensures
        r.deep_view() == seq!["run"@, "--config="@ + spec_path_join(plugin_dir@, "deno.json"@)]
            + spec_deno_args(permissions@, plugin_dir@) + seq![main_ts_path@],
{
    let deno_json_path = path_join(plugin_dir, "deno.json");
    let mut args: Vec<String> = Vec::new();
    args.push(copy_str("run"));
    args.push(concat2("--config=", deno_json_path.as_str()));
    let mut permission_args = permissions_to_deno_args(permissions, plugin_dir);
    let ghost before = args.deep_view();
    args.append(&mut permission_args);
    assert(args.deep_view() =~= before + spec_deno_args(permissions@, plugin_dir@));
    args.push(copy_str(main_ts_path));
    assert(args.deep_view() =~= seq!["run"@, "--config="@ + spec_path_join(plugin_dir@, "deno.json"@)]
        + spec_deno_args(permissions@, plugin_dir@) + seq![main_ts_path@]);
    args
}

/// The `allowScripts` list of the permissions (for running `deno install`),
/// when it is a non-empty list.
pub fn get_allow_scripts(permissions: &DenoPermissions) -> (r: Option<Vec<String>>)
    ensures
        match lookup(permissions@, "allowScripts"@) {
            Some(PermissionValue::Scoped(scripts)) => if scripts.len() > 0 {
                r matches Some(v) && v.deep_view() == scripts
            } else {
                r is None
            },
            _ => r is None,
        },
{
    match permissions.get("allowScripts") {
        Some(DenoPermissionValue::Scoped(scripts)) => {
            if scripts.len() > 0 {
                Some(copy_strings(scripts))
            } else {
                None
            }
        },
        _ => None,
    }
}

/// Why a plugin's required permissions are not granted.
#[derive(Debug)]
pub enum PermissionError {
    /// A required install script is not in the granted `allowScripts`.
    ScriptNotGranted { script: String },
    /// Install scripts are required but no `allowScripts` list was granted.
    ScriptsNotGranted { scripts: Vec<String> },
    /// A required permission was not granted at all.
    PermissionNotGranted { key: String },
}

/// The mathematical value of a [`PermissionError`].
pub enum PermissionIssue {
    ScriptNotGranted(Seq<char>),
    ScriptsNotGranted(Seq<Seq<char>>),
    PermissionNotGranted(Seq<char>),
}

impl View for PermissionError {
    type V = PermissionIssue;

    open spec fn view(&self) -> PermissionIssue {
        match self {
            PermissionError::ScriptNotGranted { script } => PermissionIssue::ScriptNotGranted(script@),
            PermissionError::ScriptsNotGranted { scripts } => PermissionIssue::ScriptsNotGranted(
                scripts.deep_view(),
            ),
            PermissionError::PermissionNotGranted { key } => PermissionIssue::PermissionNotGranted(
                key@,
            ),
        }
    }
}

/// The first of `required` that is not in `granted`.
pub open spec fn first_not_in(required: Seq<Seq<char>>, granted: Seq<Seq<char>>) -> Option<Seq<char>>
    decreases required.len(),
{
    if required.len() == 0 {
        None
    } else if granted.contains(required[0]) {
        first_not_in(required.drop_first(), granted)
    } else {
        Some(required[0])
    }
}

/// What is wrong with one required permission, given the granted ones.
/// `allowScripts` is checked script by script; any other key only needs to be
/// granted in some form (the scope is not compared).
pub open spec fn check_required(
    key: Seq<char>,
    required: PermissionValue,
    granted: Seq<(Seq<char>, PermissionValue)>,
) -> Option<PermissionIssue> {
    if key == "allowScripts"@ {
        match required {
            PermissionValue::Scoped(scripts) => match lookup(granted, "allowScripts"@) {
                Some(PermissionValue::Scoped(granted_scripts)) => match first_not_in(
                    scripts,
                    granted_scripts,
                ) {
                    Some(script) => Some(PermissionIssue::ScriptNotGranted(script)),
                    None => None,
                },
                _ => Some(PermissionIssue::ScriptsNotGranted(scripts)),
            },
            PermissionValue::Boolean(_) => None,
        }
    } else if lookup(granted, key) is None {
        Some(PermissionIssue::PermissionNotGranted(key))
    } else {
        None
    }
}

/// The problem with the first required permission, in key order, that the
/// granted permissions don't satisfy.
pub open spec fn first_issue(
    required: Seq<(Seq<char>, PermissionValue)>,
    granted: Seq<(Seq<char>, PermissionValue)>,
) -> Option<PermissionIssue>
    decreases required.len(),
{
    if required.len() == 0 {
        None
    } else {
        match check_required(required[0].0, required[0].1, granted) {
            Some(issue) => Some(issue),
            None => first_issue(required.drop_first(), granted),
        }
    }
}

proof fn lemma_first_issue_step(
    required: Seq<(Seq<char>, PermissionValue)>,
    granted: Seq<(Seq<char>, PermissionValue)>,
    i: int,
)
    requires
        0 <= i < required.len(),
        check_required(required[i].0, required[i].1, granted) is None,
    ensures
        first_issue(required.skip(i), granted) == first_issue(required.skip(i + 1), granted),
{
    assert(required.skip(i).drop_first() =~= required.skip(i + 1));
}

proof fn lemma_first_not_in_step(required: Seq<Seq<char>>, granted: Seq<Seq<char>>, i: int)
    requires
        0 <= i < required.len(),
        granted.contains(required[i]),
    ensures
        first_not_in(required.skip(i), granted) == first_not_in(required.skip(i + 1), granted),
{
    assert(required.skip(i).drop_first() =~= required.skip(i + 1));
}

/// Validates that all permissions required by the manifest are granted by the
/// user config, reporting the first one, in key order, that is not.
pub fn validate_permissions(required: &DenoPermissions, granted: &DenoPermissions) -> (r: Result<(), PermissionError>)
    ensures
        match r {
            Ok(()) => first_issue(required@, granted@) is None,
            Err(e) => first_issue(required@, granted@) == Some(e@),
        },
{
    let mut i: usize = 0;
    assert(required@.skip(0) =~= required@);
    while i < required.len()
        invariant
            i <= required@.len(),
            first_issue(required@, granted@) == first_issue(required@.skip(i as int), granted@),
        decreases required@.len() - i,
    {
        let (key, value) = required.entry(i);
        assert(required@.skip(i as int)[0] == required@[i as int]);
        if str_eq(key.as_str(), "allowScripts") {
            if let DenoPermissionValue::Scoped(required_scripts) = value {
                match granted.get("allowScripts") {
                    Some(DenoPermissionValue::Scoped(granted_scripts)) => {
                        let mut j: usize = 0;
                        assert(required_scripts.deep_view().skip(0) =~= required_scripts.deep_view());
                        #[verifier::loop_isolation(false)]
                        while j < required_scripts.len()
                            invariant
                                j <= required_scripts@.len(),
                                first_not_in(required_scripts.deep_view(), granted_scripts.deep_view())
                                    == first_not_in(
                                    required_scripts.deep_view().skip(j as int),
                                    granted_scripts.deep_view(),
                                ),
                            decreases required_scripts@.len() - j,
                        {
                            assert(required_scripts.deep_view().skip(j as int)[0]
                                == required_scripts@[j as int]@);
                            if !contains_string(granted_scripts, required_scripts[j].as_str()) {
                                assert(first_not_in(
                                    required_scripts.deep_view().skip(j as int),
                                    granted_scripts.deep_view(),
                                ) == Some(required_scripts@[j as int]@));
                                assert(check_required(key@, value@, granted@) == Some(
                                    PermissionIssue::ScriptNotGranted(required_scripts@[j as int]@),
                                ));
                                return Err(
                                    PermissionError::ScriptNotGranted {
                                        script: copy_str(required_scripts[j].as_str()),
                                    },
                                );
                            }
                            proof {
                                lemma_first_not_in_step(
                                    required_scripts.deep_view(),
                                    granted_scripts.deep_view(),
                                    j as int,
                                );
                            }
                            j = j + 1;
                        }
                    },
                    _ => {
                        return Err(
                            PermissionError::ScriptsNotGranted { scripts: copy_strings(required_scripts) },
                        );
                    },
                }
            }
        } else {
            if granted.get(key.as_str()).is_none() {
                return Err(PermissionError::PermissionNotGranted { key: copy_str(key.as_str()) });
            }
        }
        proof {
            lemma_first_issue_step(required@, granted@, i as int);
        }
        i = i + 1;
    }
    Ok(())
}


/// A string in double quotes.
pub open spec fn quoted(s: Seq<char>) -> Seq<char> {
    "\""@ + s + "\""@
}

/// The text that explains a permission problem to the user.
pub open spec fn spec_permission_message(issue: PermissionIssue) -> Seq<char> {
    match issue {
        PermissionIssue::ScriptNotGranted(script) => "Plugin requires allowScripts for '"@ + script
            + "', but it was not granted in the plugin's config. Add it to the \"permissions\" in the plugin's configuration section."@,
        PermissionIssue::ScriptsNotGranted(scripts) => "Plugin requires allowScripts for ["@ + join(
            scripts,
            ", "@,
        ) + "], but none were granted in the plugin's config. Add \"allowScripts\": ["@ + join(
            scripts.map_values(|s: Seq<char>| quoted(s)),
            ", "@,
        ) + "] to the \"permissions\" in the plugin's configuration section."@,
        PermissionIssue::PermissionNotGranted(key) => "Plugin requires '"@ + key
            + "' permission, but it was not granted in the plugin's config. Add it to the \"permissions\" in the plugin's configuration section."@,
    }
}

impl PermissionError {
    /// The text that explains the problem to the user.
    pub fn to_string(&self) -> (r: String)
        ensures
            r@ == spec_permission_message(self@),
    {
        match self {
            PermissionError::ScriptNotGranted { script } => {
                concat3(
                    "Plugin requires allowScripts for '",
                    script.as_str(),
                    "', but it was not granted in the plugin's config. Add it to the \"permissions\" in the plugin's configuration section.",
                )
            },
            PermissionError::ScriptsNotGranted { scripts } => {
                let mut quoted_scripts: Vec<String> = Vec::new();
                let mut i: usize = 0;
                while i < scripts.len()
                    invariant
                        i <= scripts@.len(),
                        quoted_scripts@.len() == i,
                        forall|j: int|
                            0 <= j < i ==> #[trigger] quoted_scripts@[j]@ == quoted(scripts@[j]@),
                    decreases scripts@.len() - i,
                {
                    quoted_scripts.push(concat3("\"", scripts[i].as_str(), "\""));
                    i = i + 1;
                }
                assert(quoted_scripts.deep_view() =~= scripts.deep_view().map_values(
                    |s: Seq<char>| quoted(s),
                ));
                let mut r = String::from_str("Plugin requires allowScripts for [");
                r.append(join_strings(scripts, ", ").as_str());
                r.append("], but none were granted in the plugin's config. Add \"allowScripts\": [");
                r.append(join_strings(&quoted_scripts, ", ").as_str());
                r.append("] to the \"permissions\" in the plugin's configuration section.");
                r
            },
            PermissionError::PermissionNotGranted { key } => {
                concat3(
                    "Plugin requires '",
                    key.as_str(),
                    "' permission, but it was not granted in the plugin's config. Add it to the \"permissions\" in the plugin's configuration section.",
                )
            },
        }
    }
}

/// The argument that lets `deno install` run the scripts of the named
/// packages.
pub fn allow_scripts_arg(scripts: &Vec<String>) -> (r: String)
    ensures
        r@ == "--allow-scripts="@ + join(scripts.deep_view(), ","@),
{
    let joined = join_strings(scripts, ",");
    concat2("--allow-scripts=", joined.as_str())
}

/// An integer written in decimal, with a leading `-` when negative.
pub open spec fn signed_decimal(i: int) -> Seq<char> {
    if i < 0 {
        seq!['-'] + crate::text::decimal((-i) as nat)
    } else {
        crate::text::decimal(i as nat)
    }
}

/// An exit status as `{:?}` writes an `Option<i32>`.
pub open spec fn status_debug(status: Option<i32>) -> Seq<char> {
    match status {
        Some(c) => "Some("@ + signed_decimal(c as int) + ")"@,
        None => "None"@,
    }
}

fn status_debug_text(status: Option<i32>) -> (r: String)
    ensures
        r@ == status_debug(status),
{
    match status {
        Some(c) => {
            let digits = if c < 0 {
                let magnitude: i64 = 0i64 - (c as i64);
                let d = crate::text::decimal_text(magnitude as usize);
                proof {
                    reveal_strlit("-");
                    assert("-"@ =~= seq!['-']);
                }
                concat2("-", d.as_str())
            } else {
                crate::text::decimal_text(c as usize)
            };
            concat3("Some(", digits.as_str(), ")")
        },
        None => copy_str("None"),
    }
}

/// Whether `deno install` for a plugin succeeded: only an exit code of 0
/// does; otherwise the error names the plugin and the status.
pub fn deno_install_outcome(plugin_name: &str, status: Option<i32>) -> (r: Result<(), String>)
    ensures
        status == Some(0i32) <==> r is Ok,
        r matches Err(e) ==> e@ == "Failed to run 'deno install' for plugin "@ + plugin_name@ + ". Exit code: "@
            + status_debug(status),
{
    if let Some(0) = status {
        return Ok(());
    }
    let status_text = status_debug_text(status);
    let head = concat3("Failed to run 'deno install' for plugin ", plugin_name, ". Exit code: ");
    Err(concat2(head.as_str(), status_text.as_str()))
}

} // verus!
