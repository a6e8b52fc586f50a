//! The plugins of a run as a collection: the hash that tells whether any of
//! them changed, how a plugin is handed out once its configuration was
//! checked, and how the plugins for a file format it one after another.
use vstd::prelude::*;

verus! {

broadcast use vstd::seq_lib::group_to_multiset_ensures;

/// The sum of the plugins' hashes, as a mathematical integer.
pub open spec fn hash_total(hashes: Seq<u64>) -> int
    decreases hashes.len(),
{
    if hashes.len() == 0 {
        0
    } else {
        hash_total(hashes.drop_last()) + hashes.last()
    }
}

/// The combined hash of the plugins: the sum of their hashes, wrapping
/// around at 2^64.
pub open spec fn combined_hash(hashes: Seq<u64>) -> int {
    hash_total(hashes) % 0x1_0000_0000_0000_0000
}

/// The hash the incremental formatting compares to tell whether any plugin
/// changed: the plugins' hashes added up, wrapping around (see
/// [`combined_hash`]).
pub fn get_plugins_hash(hashes: &Vec<u64>) -> (r: u64)
    ensures
        r == combined_hash(hashes@),
{
    let mut sum: u64 = 0;
    let mut i: usize = 0;
    while i < hashes.len()
        invariant
            i <= hashes@.len(),
            sum == combined_hash(hashes@.take(i as int)),
        decreases hashes@.len() - i,
    {
        let h = hashes[i];
        let ghost before = hashes@.take(i as int);
        assert(hashes@.take(i + 1).drop_last() =~= before);
        proof {
            vstd::arithmetic::div_mod::lemma_add_mod_noop(hash_total(before), h as int, 0x1_0000_0000_0000_0000);
            vstd::arithmetic::div_mod::lemma_small_mod(h as nat, 0x1_0000_0000_0000_0000);
            if sum + h < 0x1_0000_0000_0000_0000 {
                vstd::arithmetic::div_mod::lemma_small_mod((sum + h) as nat, 0x1_0000_0000_0000_0000);
            } else {
                vstd::arithmetic::div_mod::lemma_mod_sub_multiples_vanish((sum + h) as int, 0x1_0000_0000_0000_0000);
                vstd::arithmetic::div_mod::lemma_small_mod(
                    (sum + h - 0x1_0000_0000_0000_0000) as nat,
                    0x1_0000_0000_0000_0000,
                );
            }
        }
        sum = sum.wrapping_add(h);
        i = i + 1;
    }
    assert(hashes@.take(i as int) =~= hashes@);
    sum
}

proof fn lemma_hash_total_remove(s: Seq<u64>, j: int)
    requires
        0 <= j < s.len(),
    ensures
        hash_total(s) == hash_total(s.remove(j)) + s[j],
    decreases s.len(),
{
    if j < s.len() - 1 {
        lemma_hash_total_remove(s.drop_last(), j);
        assert(s.remove(j).drop_last() =~= s.drop_last().remove(j));
        assert(s.remove(j).last() == s.last());
    } else {
        assert(s.remove(j) =~= s.drop_last());
    }
}

/// The combined hash does not depend on the order in which the plugins are
/// visited: plugins with the same hashes, in any order, give the same
/// combined hash.
pub proof fn law_plugins_hash_order_free(a: Seq<u64>, b: Seq<u64>)
    requires
        a.to_multiset() == b.to_multiset(),
    ensures
        hash_total(a) == hash_total(b),
        combined_hash(a) == combined_hash(b),
    decreases a.len(),
{
    if a.len() == 0 {
        assert(b.to_multiset().len() == 0);
        assert(b.len() == 0);
    } else {
        let x = a.last();
        assert(a.to_multiset().count(x) > 0) by {
            assert(a.contains(x)) by {
                assert(a[a.len() - 1] == x);
            }
        }
        assert(b.contains(x));
        let j = choose|j: int| 0 <= j < b.len() && b[j] == x;
        assert(a.drop_last() =~= a.remove(a.len() - 1));
        assert(a.drop_last().to_multiset() == b.remove(j).to_multiset());
        law_plugins_hash_order_free(a.drop_last(), b.remove(j));
        lemma_hash_total_remove(b, j);
    }
}

/// Where a plugin stands on its way to being handed out: whether an
/// instance is kept, and what the check of its configuration's diagnostics
/// said, once it ran.
#[derive(Debug)]
pub struct PluginInitState {
    initialized: bool,
    checked: Option<bool>,
}

/// What to do when a plugin is asked for.
#[derive(Debug, PartialEq, Eq, Structural)]
pub enum PluginRequestStep {
    /// Hand out the instance that is kept.
    UseInitialized,
    /// Create an instance, then see [`AfterCreateStep`].
    CreateInstance,
}

/// What to do with a newly created instance.
#[derive(Debug, PartialEq, Eq, Structural)]
pub enum AfterCreateStep {
    /// The configuration had diagnostics before: the plugin is not handed
    /// out.
    HadDiagnostics,
    /// Check the configuration's diagnostics and report the outcome.
    CheckDiagnostics,
    /// Keep the instance and hand it out.
    Keep,
}

impl PluginInitState {
    #[verifier::type_invariant]
    closed spec fn inv(&self) -> bool {
        self.initialized ==> self.checked == Some(true)
    }

    /// Whether an instance is kept.
    pub closed spec fn is_initialized(&self) -> bool {
        self.initialized
    }

    /// What the check of the diagnostics said, once it ran.
    pub closed spec fn checked(&self) -> Option<bool> {
        self.checked
    }

    /// A plugin that has not been asked for yet.
    pub fn new() -> (r: PluginInitState)
        ensures
            !r.is_initialized(),
            r.checked() is None,
    {
        PluginInitState { initialized: false, checked: None }
    }

    /// What to do when the plugin is asked for: hand out the kept instance,
    /// or create one. An instance that is handed out is one whose
    /// configuration passed its check.
    pub fn on_request(&self) -> (r: PluginRequestStep)
        ensures
            self.is_initialized() <==> r == PluginRequestStep::UseInitialized,
            r == PluginRequestStep::UseInitialized ==> self.checked() == Some(true),
    {
        proof {
            use_type_invariant(self);
        }
        if self.initialized {
            PluginRequestStep::UseInitialized
        } else {
            PluginRequestStep::CreateInstance
        }
    }

    /// What to do with a newly created instance: the diagnostics are
    /// checked the first time only; after a failed check the plugin is never
    /// handed out.
    pub fn after_create(&self) -> (r: AfterCreateStep)
        ensures
            self.checked() == Some(false) ==> r == AfterCreateStep::HadDiagnostics,
            self.checked() == Some(true) ==> r == AfterCreateStep::Keep,
            self.checked() is None ==> r == AfterCreateStep::CheckDiagnostics,
    {
        match self.checked {
            Some(false) => AfterCreateStep::HadDiagnostics,
            Some(true) => AfterCreateStep::Keep,
            None => AfterCreateStep::CheckDiagnostics,
        }
    }

    /// Records the outcome of the check of the diagnostics; the instance is
    /// kept only when it passed.
    pub fn on_diagnostics_checked(&mut self, passed: bool) -> (r: AfterCreateStep)
        requires
            old(self).checked() is None,
        ensures
            final(self).checked() == Some(passed),
            final(self).is_initialized() == old(self).is_initialized(),
            passed ==> r == AfterCreateStep::Keep,
            !passed ==> r == AfterCreateStep::HadDiagnostics,
    {
        proof {
            use_type_invariant(&*self);
        }
        self.checked = Some(passed);
        if passed {
            AfterCreateStep::Keep
        } else {
            AfterCreateStep::HadDiagnostics
        }
    }

    /// Keeps the created instance, which only a plugin whose diagnostics
    /// passed may do.
    pub fn on_kept(&mut self)
        requires
            old(self).checked() == Some(true),
        ensures
            final(self).is_initialized(),
            final(self).checked() == Some(true),
    {
        self.initialized = true;
    }
}

/// The text of a file as the plugins for it format it in turn, and whether
/// any of them changed it.
#[derive(Debug)]
pub struct HostFormatChain {
    pub text: Vec<u8>,
    pub had_change: bool,
}

impl HostFormatChain {
    /// The chain before any plugin ran.
    pub fn new(text: Vec<u8>) -> (r: HostFormatChain)
        ensures
            r.text@ == text@,
            !r.had_change,
    {
        HostFormatChain { text, had_change: false }
    }

    /// A plugin's output: new text replaces the text and counts as a change;
    /// no output leaves both as they were.
    pub fn on_plugin_output(&mut self, output: Option<Vec<u8>>)
        ensures
            match output {
                Some(t) => final(self).text@ == t@ && final(self).had_change,
                None => final(self).text@ == old(self).text@ && final(self).had_change == old(self).had_change,
            },
    {
        if let Some(t) = output {
            self.text = t;
            self.had_change = true;
        }
    }

    /// The outcome once every plugin ran: the text when any changed it,
    /// else no change.
    pub fn finish(self) -> (r: Option<Vec<u8>>)
        ensures
            self.had_change ==> (r matches Some(t) && t@ == self.text@),
            !self.had_change ==> r is None,
    {
        if self.had_change {
            Some(self.text)
        } else {
            None
        }
    }
}

/// The configurations a running plugin has been given, by id: each is sent
/// once before the plugin first formats with it, and a plugin process that
/// died and was started again has been given none.
pub struct RegisteredConfigs {
    ids: std::collections::HashSet<u32>,
}

impl View for RegisteredConfigs {
    type V = Set<u32>;

    closed spec fn view(&self) -> Set<u32> {
        self.ids@
    }
}

/// What happens after a plugin process failed to format a file.
#[derive(Debug, Clone, Copy, PartialEq, Eq, Structural)]
pub enum AfterFormatFailure {
    /// The process still runs: only the error is reported.
    KeepProcess,
    /// The process died: a new one is started, which has been given no
    /// configuration yet, and the error is reported.
    RestartProcess,
}

impl RegisteredConfigs {
    /// A plugin that has been given no configuration.
    pub fn new() -> (r: RegisteredConfigs)
        ensures
            r@ == Set::<u32>::empty(),
    {
        RegisteredConfigs { ids: std::collections::HashSet::new() }
    }

    /// Whether the configuration must be sent before formatting with it.
    pub fn needs_registration(&self, id: u32) -> (r: bool)
        ensures
            r == !self@.contains(id),
    {
        broadcast use vstd::std_specs::hash::group_hash_axioms;
        !self.ids.contains(&id)
    }

    /// Notes that the plugin was given the configuration.
    pub fn mark_registered(&mut self, id: u32)
        ensures
            final(self)@ == old(self)@.insert(id),
    {
        broadcast use vstd::std_specs::hash::group_hash_axioms;
        self.ids.insert(id);
    }

    /// Decides what follows a failed format: a process that still runs is
    /// kept with what it was given; a dead one is started again, with no
    /// configuration given.
    pub fn after_format_failure(&mut self, process_alive: bool) -> (r: AfterFormatFailure)
        ensures
            r == if process_alive {
                AfterFormatFailure::KeepProcess
            } else {
                AfterFormatFailure::RestartProcess
            },
            final(self)@ == if process_alive {
                old(self)@
            } else {
                Set::<u32>::empty()
            },
    {
        if process_alive {
            AfterFormatFailure::KeepProcess
        } else {
            self.ids = std::collections::HashSet::new();
            AfterFormatFailure::RestartProcess
        }
    }
}

} // verus!
