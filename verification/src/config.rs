use vstd::prelude::*;
use vstd::string::StrSliceExecFns;

use crate::errors::ConfigError;
use crate::helper::str_eq;

verus! {

/// The five fixed command purposes a variant set can be configured for.
#[derive(Debug, Clone, Copy, PartialEq, Eq, Structural)]
pub enum CommandContext {
    Run,
    Test,
    Build,
    Bench,
    Script,
}

/// How a command line is interpreted: through the managed build tool, or
/// handed to the shell as it stands.
#[derive(Debug, Clone, Copy, PartialEq, Eq, Structural)]
pub enum CommandType {
    Cargo,
    Shell,
}

impl Default for CommandType {
    /// The schema's default interpretation is a raw shell command.
    fn default() -> (r: Self)
        ensures
            r == CommandType::Shell,
    {
        CommandType::Shell
    }
}

/// One fully-specified way to invoke a command: executable kind, command
/// line, parameters, environment, working directory, multi-instance flag,
/// and an optional reference to another variant that must run first.
#[derive(Debug, Clone, PartialEq, Eq)]
pub struct CommandDetails {
    pub command_type: CommandType,
    pub command: Option<String>,
    pub params: Option<String>,
    pub env: Option<Vec<(String, String)>>,
    pub allow_multiple_instances: Option<bool>,
    pub working_directory: Option<String>,
    pub pre_command: Option<String>,
}

/// Mathematical image of `CommandDetails`: every string replaced by its
/// sequence of characters.
#[verifier::ext_equal]
pub ghost struct DetailsView {
    pub command_type: CommandType,
    pub command: Option<Seq<char>>,
    pub params: Option<Seq<char>>,
    pub env: Option<Seq<(Seq<char>, Seq<char>)>>,
    pub allow_multiple_instances: Option<bool>,
    pub working_directory: Option<Seq<char>>,
    pub pre_command: Option<Seq<char>>,
}

pub open spec fn opt_str_view(o: Option<String>) -> Option<Seq<char>> {
    match o {
        Some(s) => Some(s@),
        None => None,
    }
}

pub open spec fn env_view(o: Option<Vec<(String, String)>>) -> Option<
    Seq<(Seq<char>, Seq<char>)>,
> {
    match o {
        Some(v) => Some(v@.map_values(|p: (String, String)| (p.0@, p.1@))),
        None => None,
    }
}

impl View for CommandDetails {
    type V = DetailsView;

    open spec fn view(&self) -> DetailsView {
        DetailsView {
            command_type: self.command_type,
            command: opt_str_view(self.command),
            params: opt_str_view(self.params),
            env: env_view(self.env),
            allow_multiple_instances: self.allow_multiple_instances,
            working_directory: opt_str_view(self.working_directory),
            pre_command: opt_str_view(self.pre_command),
        }
    }
}

/// The shape every freshly seeded variant shares, around a given command
/// type and command line: empty parameters, empty environment, a single
/// instance, the workspace-root placeholder as working directory, and an
/// empty (therefore inactive) pre-command.
pub open spec fn seeded_details(t: CommandType, c: Seq<char>) -> DetailsView {
    DetailsView {
        command_type: t,
        command: Some(c),
        params: Some(""@),
        env: Some(Seq::<(Seq<char>, Seq<char>)>::empty()),
        allow_multiple_instances: Some(false),
        working_directory: Some("${workspaceFolder}"@),
        pre_command: Some(""@),
    }
}

/// The initial variant seeded for a context given by name; contexts that
/// drive the managed build tool get its subcommand, anything unrecognized
/// gets an empty shell command.
pub open spec fn seed_details_for(context: Seq<char>) -> DetailsView {
    if context == "run"@ {
        seeded_details(CommandType::Cargo, "run --package ${packageName} --bin ${binaryName}"@)
    } else if context == "test"@ {
        seeded_details(CommandType::Cargo, "test"@)
    } else if context == "build"@ {
        seeded_details(CommandType::Cargo, "build"@)
    } else if context == "bench"@ {
        seeded_details(CommandType::Cargo, "bench"@)
    } else {
        seeded_details(CommandType::Shell, ""@)
    }
}

/// Whether some entry of the association list carries the key `k`.
pub open spec fn has_key(s: Seq<(String, CommandDetails)>, k: Seq<char>) -> bool {
    exists|i: int| 0 <= i < s.len() && s[i].0@ == k
}

/// The index at which the key `k` sits; meaningful only under `has_key`
/// and `keys_unique`.
pub open spec fn key_index(s: Seq<(String, CommandDetails)>, k: Seq<char>) -> int {
    choose|i: int| 0 <= i < s.len() && s[i].0@ == k
}

/// The association list read as a map from variant name to variant.
pub open spec fn entry_map(s: Seq<(String, CommandDetails)>) -> Map<Seq<char>, DetailsView> {
    Map::new(|k: Seq<char>| has_key(s, k), |k: Seq<char>| s[key_index(s, k)].1@)
}

/// No two entries of the association list carry the same key.
pub open spec fn keys_unique(s: Seq<(String, CommandDetails)>) -> bool {
    forall|i: int, j: int| 0 <= i < j < s.len() ==> s[i].0@ != s[j].0@
}

/// `d` with its command line replaced.
pub open spec fn with_command(d: DetailsView, c: Option<Seq<char>>) -> DetailsView {
    DetailsView { command: c, ..d }
}

/// `d` with its extra parameters replaced.
pub open spec fn with_params(d: DetailsView, p: Option<Seq<char>>) -> DetailsView {
    DetailsView { params: p, ..d }
}

/// `d` with its working directory replaced.
pub open spec fn with_working_directory(d: DetailsView, w: Option<Seq<char>>) -> DetailsView {
    DetailsView { working_directory: w, ..d }
}

/// `d` with its multi-instance flag replaced.
pub open spec fn with_allow_multiple_instances(d: DetailsView, a: Option<bool>) -> DetailsView {
    DetailsView { allow_multiple_instances: a, ..d }
}

/// `d` with its command type replaced.
pub open spec fn with_command_type(d: DetailsView, t: CommandType) -> DetailsView {
    DetailsView { command_type: t, ..d }
}

/// `d` with its pre-command reference replaced.
pub open spec fn with_pre_command(d: DetailsView, p: Option<Seq<char>>) -> DetailsView {
    DetailsView { pre_command: p, ..d }
}

/// Mathematical image of a `CommandConfig`: the default pointer and the
/// map of variants.
#[verifier::ext_equal]
pub ghost struct CommandConfigView {
    pub default: Seq<char>,
    pub configs: Map<Seq<char>, DetailsView>,
}

/// A named collection of command variants for one context, plus the key of
/// the variant currently selected as default. The default pointer is not
/// required to resolve; see `remove_config`.
#[derive(Debug, Clone, PartialEq, Eq)]
pub struct CommandConfig {
    pub default: String,
    pub configs: Vec<(String, CommandDetails)>,
}

impl View for CommandConfig {
    type V = CommandConfigView;

    open spec fn view(&self) -> CommandConfigView {
        CommandConfigView { default: self.default@, configs: entry_map(self.configs@) }
    }
}

impl CommandConfig {
    /// Well-formedness: variant names are unique, so the association list
    /// really is a map.
    pub open spec fn wf(self) -> bool {
        keys_unique(self.configs@)
    }
}

/// Under unique keys, the entry at any index is what the map holds for
/// that entry's key.
pub proof fn lemma_entry_map_index(s: Seq<(String, CommandDetails)>, i: int)
    requires
        keys_unique(s),
        0 <= i < s.len(),
    ensures
        entry_map(s).contains_key(s[i].0@),
        entry_map(s)[s[i].0@] == s[i].1@,
{
    let k = s[i].0@;
    assert(has_key(s, k));
    let j = key_index(s, k);
    assert(0 <= j < s.len() && s[j].0@ == k);
    if j < i {
        assert(s[j].0@ != s[i].0@);
    } else if i < j {
        assert(s[i].0@ != s[j].0@);
    }
}

/// Replacing the entry at index `i` while keeping its key updates the map
/// at that key and at no other.
pub proof fn lemma_entry_map_update(
    s: Seq<(String, CommandDetails)>,
    i: int,
    t: (String, CommandDetails),
)
    requires
        keys_unique(s),
        0 <= i < s.len(),
        t.0@ == s[i].0@,
    ensures
        keys_unique(s.update(i, t)),
        entry_map(s.update(i, t)) == entry_map(s).insert(s[i].0@, t.1@),
{
    let s2 = s.update(i, t);
    assert forall|a: int, b: int| 0 <= a < b < s2.len() implies s2[a].0@ != s2[b].0@ by {
        assert(s2[a].0@ == s[a].0@);
        assert(s2[b].0@ == s[b].0@);
        assert(s[a].0@ != s[b].0@);
    }
    assert forall|k: Seq<char>| has_key(s2, k) implies has_key(s, k) by {
        let j = choose|j: int| 0 <= j < s2.len() && s2[j].0@ == k;
        assert(s[j].0@ == k);
    }
    assert forall|k: Seq<char>| has_key(s, k) implies has_key(s2, k) by {
        let j = choose|j: int| 0 <= j < s.len() && s[j].0@ == k;
        assert(s2[j].0@ == k);
    }
    assert forall|k: Seq<char>| #[trigger] entry_map(s2).contains_key(k) implies entry_map(s2)[k]
        == entry_map(s).insert(s[i].0@, t.1@)[k] by {
        let j = key_index(s2, k);
        assert(0 <= j < s2.len() && s2[j].0@ == k);
        if k == s[i].0@ {
            if j < i {
                assert(s2[j].0@ != s2[i].0@);
            } else if i < j {
                assert(s2[i].0@ != s2[j].0@);
            }
            assert(j == i);
            assert(entry_map(s2)[k] == t.1@);
        } else {
            assert(j != i);
            assert(s[j].0@ == k);
            lemma_entry_map_index(s, j);
            assert(entry_map(s2)[k] == s[j].1@);
        }
    }
    assert(entry_map(s2) =~= entry_map(s).insert(s[i].0@, t.1@));
}

/// Removing the entry at index `i` removes exactly its key from the map.
pub proof fn lemma_entry_map_remove(s: Seq<(String, CommandDetails)>, i: int)
    requires
        keys_unique(s),
        0 <= i < s.len(),
    ensures
        keys_unique(s.remove(i)),
        entry_map(s.remove(i)) == entry_map(s).remove(s[i].0@),
{
    let s2 = s.remove(i);
    assert forall|a: int, b: int| 0 <= a < b < s2.len() implies s2[a].0@ != s2[b].0@ by {
        let a0 = if a < i { a } else { a + 1 };
        let b0 = if b < i { b } else { b + 1 };
        assert(s2[a].0@ == s[a0].0@);
        assert(s2[b].0@ == s[b0].0@);
        assert(s[a0].0@ != s[b0].0@);
    }
    assert forall|k: Seq<char>| has_key(s2, k) implies has_key(s, k) && k != s[i].0@ by {
        let j = choose|j: int| 0 <= j < s2.len() && s2[j].0@ == k;
        let j0 = if j < i { j } else { j + 1 };
        assert(s[j0].0@ == k);
        if j0 < i {
            assert(s[j0].0@ != s[i].0@);
        } else {
            assert(s[i].0@ != s[j0].0@);
        }
    }
    assert forall|k: Seq<char>| has_key(s, k) && k != s[i].0@ implies has_key(s2, k) by {
        let j = choose|j: int| 0 <= j < s.len() && s[j].0@ == k;
        if j < i {
            assert(s2[j].0@ == k);
        } else {
            assert(j != i);
            assert(s2[j - 1].0@ == k);
        }
    }
    assert forall|k: Seq<char>| #[trigger] entry_map(s2).contains_key(k) implies entry_map(s2)[k]
        == entry_map(s).remove(s[i].0@)[k] by {
        let j = key_index(s2, k);
        assert(0 <= j < s2.len() && s2[j].0@ == k);
        let j0 = if j < i { j } else { j + 1 };
        assert(s[j0].0@ == k);
        lemma_entry_map_index(s, j0);
        assert(entry_map(s2)[k] == s2[j].1@);
        assert(s2[j].1@ == s[j0].1@);
    }
    assert(entry_map(s2) =~= entry_map(s).remove(s[i].0@));
}

/// Appending an entry with a fresh key adds exactly that key to the map.
pub proof fn lemma_entry_map_push(s: Seq<(String, CommandDetails)>, t: (String, CommandDetails))
    requires
        keys_unique(s),
        !has_key(s, t.0@),
    ensures
        keys_unique(s.push(t)),
        entry_map(s.push(t)) == entry_map(s).insert(t.0@, t.1@),
{
    let s2 = s.push(t);
    assert forall|a: int, b: int| 0 <= a < b < s2.len() implies s2[a].0@ != s2[b].0@ by {
        if b < s.len() {
            assert(s[a].0@ != s[b].0@);
        } else {
            assert(s2[b] == t);
            assert(s2[a].0@ == s[a].0@);
            if s[a].0@ == t.0@ {
                assert(has_key(s, t.0@));
            }
        }
    }
    assert forall|k: Seq<char>| has_key(s2, k) implies has_key(s, k) || k == t.0@ by {
        let j = choose|j: int| 0 <= j < s2.len() && s2[j].0@ == k;
        if j < s.len() {
            assert(s[j].0@ == k);
        }
    }
    assert forall|k: Seq<char>| has_key(s, k) implies has_key(s2, k) by {
        let j = choose|j: int| 0 <= j < s.len() && s[j].0@ == k;
        assert(s2[j].0@ == k);
    }
    assert(s2[s.len() as int].0@ == t.0@);
    assert(has_key(s2, t.0@));
    assert forall|k: Seq<char>| #[trigger] entry_map(s2).contains_key(k) implies entry_map(s2)[k]
        == entry_map(s).insert(t.0@, t.1@)[k] by {
        let j = key_index(s2, k);
        assert(0 <= j < s2.len() && s2[j].0@ == k);
        if k == t.0@ {
            if j < s.len() {
                assert(has_key(s, t.0@));
            }
            assert(entry_map(s2)[k] == t.1@);
        } else {
            assert(j < s.len());
            assert(s[j].0@ == k);
            lemma_entry_map_index(s, j);
            assert(entry_map(s2)[k] == s[j].1@);
        }
    }
    assert(entry_map(s2) =~= entry_map(s).insert(t.0@, t.1@));
}

impl CommandConfig {
    /// Index of the entry named `key`, if there is one.
    fn find_index(&self, key: &str) -> (r: Option<usize>)
        ensures
            match r {
                Some(i) => i < self.configs@.len() && self.configs@[i as int].0@ == key@,
                None => !has_key(self.configs@, key@),
            },
    {
        let n = self.configs.len();
        let mut i: usize = 0;
        while i < n
            invariant
                n == self.configs@.len(),
                i <= n,
                forall|j: int| 0 <= j < i ==> self.configs@[j].0@ != key@,
            decreases n - i,
        {
            if str_eq(self.configs[i].0.as_str(), key) {
                return Some(i);
            }
            i += 1;
        }
        None
    }

    /// Builds the shared seeded variant around one command line and kind.
    fn default_command_details(command: &str, command_type: CommandType) -> (r: CommandDetails)
        ensures
            r@ == seeded_details(command_type, command@),
    {
        let r = CommandDetails {
            command_type,
            command: Some(command.to_owned()),
            params: Some("".to_owned()),
            allow_multiple_instances: Some(false),
            working_directory: Some("${workspaceFolder}".to_owned()),
            pre_command: Some("".to_owned()),
            env: Some(Vec::new()),
        };
        proof {
            assert(r@ =~~= seeded_details(command_type, command@));
        }
        r
    }

    /// A fresh variant set for the named context: one variant under the
    /// key `"default"`, seeded for that context, and selected as default.
    pub fn with_context(context: &str) -> (r: Self)
        ensures
            r.wf(),
            r@.default == "default"@,
            r@.configs == Map::<Seq<char>, DetailsView>::empty().insert(
                "default"@,
                seed_details_for(context@),
            ),
    {
        let default_details = if str_eq(context, "run") {
            Self::default_command_details(
                "run --package ${packageName} --bin ${binaryName}",
                CommandType::Cargo,
            )
        } else if str_eq(context, "test") {
            Self::default_command_details("test", CommandType::Cargo)
        } else if str_eq(context, "build") {
            Self::default_command_details("build", CommandType::Cargo)
        } else if str_eq(context, "bench") {
            Self::default_command_details("bench", CommandType::Cargo)
        } else {
            Self::default_command_details("", CommandType::Shell)
        };
        let mut configs: Vec<(String, CommandDetails)> = Vec::new();
        configs.push(("default".to_owned(), default_details));
        let r = CommandConfig { default: "default".to_owned(), configs };
        proof {
            let s = r.configs@;
            assert(s.len() == 1);
            assert(keys_unique(s));
            assert forall|k: Seq<char>| has_key(s, k) implies k == "default"@ by {
                let i = choose|i: int| 0 <= i < s.len() && s[i].0@ == k;
                assert(i == 0);
            }
            assert(s[0].0@ == "default"@);
            assert(has_key(s, "default"@));
            lemma_entry_map_index(s, 0);
            assert(r@.configs =~= Map::<Seq<char>, DetailsView>::empty().insert(
                "default"@,
                seed_details_for(context@),
            ));
        }
        r
    }
}

impl CommandConfig {
    /// Inserts or overwrites the variant named `key`, unconditionally.
    pub fn update_config(&mut self, key: &str, details: CommandDetails)
        requires
            old(self).wf(),
        ensures
            final(self).wf(),
            final(self)@.default == old(self)@.default,
            final(self)@.configs == old(self)@.configs.insert(key@, details@),
    {
        match self.find_index(key) {
            Some(i) => {
                let (k, _replaced) = self.configs.remove(i);
                self.configs.insert(i, (k, details));
                proof {
                    let s = old(self).configs@;
                    let s2 = self.configs@;
                    let ii = i as int;
                    assert(s2 =~= s.update(ii, s2[ii]));
                    lemma_entry_map_update(s, ii, s2[ii]);
                }
            },
            None => {
                self.configs.push((key.to_owned(), details));
                proof {
                    let s = old(self).configs@;
                    let s2 = self.configs@;
                    assert(s2 =~= s.push(s2.last()));
                    lemma_entry_map_push(s, s2.last());
                }
            },
        }
    }

    /// Deletes the variant named `key` if present; absent keys are ignored.
    /// If the removed key is the current default, the default resets to the
    /// literal fallback name `"default"`, whether or not a variant of that
    /// name exists afterwards.
    pub fn remove_config(&mut self, key: &str)
        requires
            old(self).wf(),
        ensures
            final(self).wf(),
            final(self)@.configs == old(self)@.configs.remove(key@),
            old(self)@.default == key@ ==> final(self)@.default == "default"@,
            old(self)@.default != key@ ==> final(self)@.default == old(self)@.default,
    {
        match self.find_index(key) {
            Some(i) => {
                let _removed = self.configs.remove(i);
                proof {
                    lemma_entry_map_remove(old(self).configs@, i as int);
                }
            },
            None => {
                proof {
                    assert(self@.configs =~= self@.configs.remove(key@));
                }
            },
        }
        if str_eq(self.default.as_str(), key) {
            self.default = "default".to_owned();
        }
    }

    /// Points the set's default at `new_default_key`, which must name an
    /// existing variant; no variant itself is touched.
    pub fn set_default(&mut self, new_default_key: &str) -> (r: Result<(), ConfigError>)
        requires
            old(self).wf(),
        ensures
            final(self).wf(),
            final(self)@.configs == old(self)@.configs,
            r is Ok <==> old(self)@.configs.contains_key(new_default_key@),
            r is Ok ==> final(self)@.default == new_default_key@,
            r is Err ==> *final(self) == *old(self) && (r matches Err(
                ConfigError::ConfigKeyNotFound(p),
            ) && p@ == new_default_key@),
    {
        match self.find_index(new_default_key) {
            Some(i) => {
                proof {
                    lemma_entry_map_index(self.configs@, i as int);
                }
                self.default = new_default_key.to_owned();
                Ok(())
            },
            None => Err(ConfigError::ConfigKeyNotFound(new_default_key.to_owned())),
        }
    }

    /// Replaces the command line of the variant named `key`.
    pub fn update_command(&mut self, key: &str, command: &str) -> (r: Result<(), ConfigError>)
        requires
            old(self).wf(),
        ensures
            final(self).wf(),
            final(self)@.default == old(self)@.default,
            r is Ok <==> old(self)@.configs.contains_key(key@),
            r is Ok ==> final(self)@.configs == old(self)@.configs.insert(
                key@,
                with_command(old(self)@.configs[key@], Some(command@)),
            ),
            r is Err ==> *final(self) == *old(self) && (r matches Err(
                ConfigError::ConfigKeyNotFound(p),
            ) && p@ == key@),
    {
        match self.find_index(key) {
            Some(i) => {
                proof {
                    lemma_entry_map_index(self.configs@, i as int);
                }
                let (k, d) = self.configs.remove(i);
                let nd = CommandDetails { command: Some(command.to_owned()), ..d };
                self.configs.insert(i, (k, nd));
                proof {
                    let s = old(self).configs@;
                    let s2 = self.configs@;
                    let ii = i as int;
                    assert(s2 =~= s.update(ii, s2[ii]));
                    lemma_entry_map_update(s, ii, s2[ii]);
                }
                Ok(())
            },
            None => Err(ConfigError::ConfigKeyNotFound(key.to_owned())),
        }
    }

    /// Replaces the extra parameters of the variant named `config_key`.
    pub fn update_params(&mut self, config_key: &str, new_params: &str) -> (r: Result<
        (),
        ConfigError,
    >)
        requires
            old(self).wf(),
        ensures
            final(self).wf(),
            final(self)@.default == old(self)@.default,
            r is Ok <==> old(self)@.configs.contains_key(config_key@),
            r is Ok ==> final(self)@.configs == old(self)@.configs.insert(
                config_key@,
                with_params(old(self)@.configs[config_key@], Some(new_params@)),
            ),
            r is Err ==> *final(self) == *old(self) && (r matches Err(
                ConfigError::ConfigKeyNotFound(p),
            ) && p@ == config_key@),
    {
        match self.find_index(config_key) {
            Some(i) => {
                proof {
                    lemma_entry_map_index(self.configs@, i as int);
                }
                let (k, d) = self.configs.remove(i);
                let nd = CommandDetails { params: Some(new_params.to_owned()), ..d };
                self.configs.insert(i, (k, nd));
                proof {
                    let s = old(self).configs@;
                    let s2 = self.configs@;
                    let ii = i as int;
                    assert(s2 =~= s.update(ii, s2[ii]));
                    lemma_entry_map_update(s, ii, s2[ii]);
                }
                Ok(())
            },
            None => Err(ConfigError::ConfigKeyNotFound(config_key.to_owned())),
        }
    }

    /// Replaces the working directory of the variant named `key`.
    pub fn update_working_directory(&mut self, key: &str, cwd: &str) -> (r: Result<
        (),
        ConfigError,
    >)
        requires
            old(self).wf(),
        ensures
            final(self).wf(),
            final(self)@.default == old(self)@.default,
            r is Ok <==> old(self)@.configs.contains_key(key@),
            r is Ok ==> final(self)@.configs == old(self)@.configs.insert(
                key@,
                with_working_directory(old(self)@.configs[key@], Some(cwd@)),
            ),
            r is Err ==> *final(self) == *old(self) && (r matches Err(
                ConfigError::ConfigKeyNotFound(p),
            ) && p@ == key@),
    {
        match self.find_index(key) {
            Some(i) => {
                proof {
                    lemma_entry_map_index(self.configs@, i as int);
                }
                let (k, d) = self.configs.remove(i);
                let nd = CommandDetails { working_directory: Some(cwd.to_owned()), ..d };
                self.configs.insert(i, (k, nd));
                proof {
                    let s = old(self).configs@;
                    let s2 = self.configs@;
                    let ii = i as int;
                    assert(s2 =~= s.update(ii, s2[ii]));
                    lemma_entry_map_update(s, ii, s2[ii]);
                }
                Ok(())
            },
            None => Err(ConfigError::ConfigKeyNotFound(key.to_owned())),
        }
    }

    /// Replaces the multi-instance flag of the variant named `key`.
    pub fn update_allow_multiple_instances(&mut self, key: &str, allow: bool) -> (r: Result<
        (),
        ConfigError,
    >)
        requires
            old(self).wf(),
        ensures
            final(self).wf(),
            final(self)@.default == old(self)@.default,
            r is Ok <==> old(self)@.configs.contains_key(key@),
            r is Ok ==> final(self)@.configs == old(self)@.configs.insert(
                key@,
                with_allow_multiple_instances(old(self)@.configs[key@], Some(allow)),
            ),
            r is Err ==> *final(self) == *old(self) && (r matches Err(
                ConfigError::ConfigKeyNotFound(p),
            ) && p@ == key@),
    {
        match self.find_index(key) {
            Some(i) => {
                proof {
                    lemma_entry_map_index(self.configs@, i as int);
                }
                let (k, d) = self.configs.remove(i);
                let nd = CommandDetails { allow_multiple_instances: Some(allow), ..d };
                self.configs.insert(i, (k, nd));
                proof {
                    let s = old(self).configs@;
                    let s2 = self.configs@;
                    let ii = i as int;
                    assert(s2 =~= s.update(ii, s2[ii]));
                    lemma_entry_map_update(s, ii, s2[ii]);
                }
                Ok(())
            },
            None => Err(ConfigError::ConfigKeyNotFound(key.to_owned())),
        }
    }

    /// Replaces the command type of the variant named `key`.
    pub fn update_command_type(&mut self, key: &str, command_type: CommandType) -> (r: Result<
        (),
        ConfigError,
    >)
        requires
            old(self).wf(),
        ensures
            final(self).wf(),
            final(self)@.default == old(self)@.default,
            r is Ok <==> old(self)@.configs.contains_key(key@),
            r is Ok ==> final(self)@.configs == old(self)@.configs.insert(
                key@,
                with_command_type(old(self)@.configs[key@], command_type),
            ),
            r is Err ==> *final(self) == *old(self) && (r matches Err(
                ConfigError::ConfigKeyNotFound(p),
            ) && p@ == key@),
    {
        match self.find_index(key) {
            Some(i) => {
                proof {
                    lemma_entry_map_index(self.configs@, i as int);
                }
                let (k, d) = self.configs.remove(i);
                let nd = CommandDetails { command_type, ..d };
                self.configs.insert(i, (k, nd));
                proof {
                    let s = old(self).configs@;
                    let s2 = self.configs@;
                    let ii = i as int;
                    assert(s2 =~= s.update(ii, s2[ii]));
                    lemma_entry_map_update(s, ii, s2[ii]);
                }
                Ok(())
            },
            None => Err(ConfigError::ConfigKeyNotFound(key.to_owned())),
        }
    }

    /// Updates the pre-command reference of the variant named `key`.
    ///
    /// The checks run in a fixed order: a self-reference is rejected first,
    /// then an empty value clears the field, then a value that names no
    /// variant in this set is rejected; only then is the link recorded.
    pub fn update_pre_command(&mut self, key: &str, pre_command: &str) -> (r: Result<
        (),
        ConfigError,
    >)
        requires
            old(self).wf(),
        ensures
            final(self).wf(),
            final(self)@.default == old(self)@.default,
            key@ == pre_command@ ==> *final(self) == *old(self) && (r matches Err(
                ConfigError::InvalidPreCommand(p),
            ) && p@ == pre_command@),
            key@ != pre_command@ && pre_command@.len() == 0 ==> {
                if old(self)@.configs.contains_key(key@) {
                    r is Ok && final(self)@.configs == old(self)@.configs.insert(
                        key@,
                        with_pre_command(old(self)@.configs[key@], None),
                    )
                } else {
                    *final(self) == *old(self) && (r matches Err(ConfigError::ConfigKeyNotFound(p))
                        && p@ == key@)
                }
            },
            key@ != pre_command@ && pre_command@.len() != 0 && !old(self)@.configs.contains_key(
                pre_command@,
            ) ==> *final(self) == *old(self) && (r matches Err(ConfigError::InvalidPreCommand(p))
                && p@ == pre_command@),
            key@ != pre_command@ && pre_command@.len() != 0 && old(self)@.configs.contains_key(
                pre_command@,
            ) ==> {
                if old(self)@.configs.contains_key(key@) {
                    r is Ok && final(self)@.configs == old(self)@.configs.insert(
                        key@,
                        with_pre_command(old(self)@.configs[key@], Some(pre_command@)),
                    )
                } else {
                    *final(self) == *old(self) && (r matches Err(ConfigError::ConfigKeyNotFound(p))
                        && p@ == key@)
                }
            },
    {
        if str_eq(pre_command, key) {
            return Err(ConfigError::InvalidPreCommand(pre_command.to_owned()));
        }
        if pre_command.unicode_len() == 0 {
            return match self.find_index(key) {
                Some(i) => {
                    proof {
                        lemma_entry_map_index(self.configs@, i as int);
                    }
                    let (k, d) = self.configs.remove(i);
                    let nd = CommandDetails { pre_command: None, ..d };
                    self.configs.insert(i, (k, nd));
                    proof {
                        let s = old(self).configs@;
                        let s2 = self.configs@;
                        let ii = i as int;
                        assert(s2 =~= s.update(ii, s2[ii]));
                        lemma_entry_map_update(s, ii, s2[ii]);
                    }
                    Ok(())
                },
                None => Err(ConfigError::ConfigKeyNotFound(key.to_owned())),
            };
        }
        if self.find_index(pre_command).is_none() {
            return Err(ConfigError::InvalidPreCommand(pre_command.to_owned()));
        }
        match self.find_index(key) {
            Some(i) => {
                proof {
                    lemma_entry_map_index(self.configs@, i as int);
                }
                let (k, d) = self.configs.remove(i);
                let nd = CommandDetails { pre_command: Some(pre_command.to_owned()), ..d };
                self.configs.insert(i, (k, nd));
                proof {
                    let s = old(self).configs@;
                    let s2 = self.configs@;
                    let ii = i as int;
                    assert(s2 =~= s.update(ii, s2[ii]));
                    lemma_entry_map_update(s, ii, s2[ii]);
                }
                Ok(())
            },
            None => Err(ConfigError::ConfigKeyNotFound(key.to_owned())),
        }
    }

    /// Read access to the variant named `key`.
    pub fn get_config(&self, key: &str) -> (r: Option<&CommandDetails>)
        requires
            self.wf(),
        ensures
            match r {
                Some(d) => self@.configs.contains_key(key@) && d@ == self@.configs[key@],
                None => !self@.configs.contains_key(key@),
            },
    {
        match self.find_index(key) {
            Some(i) => {
                proof {
                    lemma_entry_map_index(self.configs@, i as int);
                }
                Some(&self.configs[i].1)
            },
            None => None,
        }
    }
}

impl Default for CommandConfig {
    /// A variant set with no variants yet; the default pointer starts at
    /// the conventional key `"default"`.
    fn default() -> (r: Self)
        ensures
            r.wf(),
            r@.default == "default"@,
            r@.configs == Map::<Seq<char>, DetailsView>::empty(),
    {
        let r = CommandConfig { default: "default".to_owned(), configs: Vec::new() };
        proof {
            assert(r@.configs =~= Map::<Seq<char>, DetailsView>::empty());
        }
        r
    }
}

/// The view of a freshly created, still empty variant set.
pub open spec fn empty_set_view() -> CommandConfigView {
    CommandConfigView { default: "default"@, configs: Map::<Seq<char>, DetailsView>::empty() }
}

/// The view of the variant set `with_context` seeds for a context name.
pub open spec fn seed_set_view(context: Seq<char>) -> CommandConfigView {
    CommandConfigView {
        default: "default"@,
        configs: Map::<Seq<char>, DetailsView>::empty().insert(
            "default"@,
            seed_details_for(context),
        ),
    }
}

pub open spec fn opt_set_view(o: Option<CommandConfig>) -> Option<CommandConfigView> {
    match o {
        Some(c) => Some(c@),
        None => None,
    }
}

/// Mathematical image of `Commands`: one optional variant set per context.
#[verifier::ext_equal]
pub ghost struct CommandsView {
    pub run: Option<CommandConfigView>,
    pub test: Option<CommandConfigView>,
    pub build: Option<CommandConfigView>,
    pub bench: Option<CommandConfigView>,
    pub script: Option<CommandConfigView>,
}

/// The configuration root's payload: one optional variant set per context.
/// A slot is `None` only while nothing has ever been configured for that
/// context.
#[derive(Debug, Clone, PartialEq, Eq)]
pub struct Commands {
    pub run: Option<CommandConfig>,
    pub test: Option<CommandConfig>,
    pub build: Option<CommandConfig>,
    pub bench: Option<CommandConfig>,
    pub script: Option<CommandConfig>,
}

impl View for Commands {
    type V = CommandsView;

    open spec fn view(&self) -> CommandsView {
        CommandsView {
            run: opt_set_view(self.run),
            test: opt_set_view(self.test),
            build: opt_set_view(self.build),
            bench: opt_set_view(self.bench),
            script: opt_set_view(self.script),
        }
    }
}

pub open spec fn opt_set_wf(o: Option<CommandConfig>) -> bool {
    match o {
        Some(c) => c.wf(),
        None => true,
    }
}

impl Commands {
    /// Well-formedness: every present variant set is well-formed.
    pub open spec fn wf(self) -> bool {
        &&& opt_set_wf(self.run)
        &&& opt_set_wf(self.test)
        &&& opt_set_wf(self.build)
        &&& opt_set_wf(self.bench)
        &&& opt_set_wf(self.script)
    }

    /// The slot that belongs to a context.
    pub open spec fn slot(self, context: CommandContext) -> Option<CommandConfig> {
        match context {
            CommandContext::Run => self.run,
            CommandContext::Test => self.test,
            CommandContext::Build => self.build,
            CommandContext::Bench => self.bench,
            CommandContext::Script => self.script,
        }
    }

    /// Makes sure the context has a variant set, creating an empty one if
    /// the slot was still unset; an existing set is left exactly as it is.
    pub fn get_or_insert_command_config(&mut self, context: CommandContext)
        requires
            old(self).wf(),
        ensures
            final(self).wf(),
            old(self).slot(context) is Some ==> *final(self) == *old(self),
            old(self).slot(context) is None ==> (final(self).slot(context) matches Some(c)
                && c@ == empty_set_view()),
            forall|other: CommandContext| other != context ==> final(self).slot(other) == old(
                self,
            ).slot(other),
    {
        match context {
            CommandContext::Run => Self::ensure_slot(&mut self.run),
            CommandContext::Test => Self::ensure_slot(&mut self.test),
            CommandContext::Build => Self::ensure_slot(&mut self.build),
            CommandContext::Bench => Self::ensure_slot(&mut self.bench),
            CommandContext::Script => Self::ensure_slot(&mut self.script),
        }
    }

    fn ensure_slot(slot: &mut Option<CommandConfig>)
        requires
            opt_set_wf(*old(slot)),
        ensures
            opt_set_wf(*final(slot)),
            *old(slot) is Some ==> *final(slot) == *old(slot),
            *old(slot) is None ==> (*final(slot) matches Some(c) && c@ == empty_set_view()),
    {
        if slot.is_none() {
            *slot = Some(CommandConfig::default());
        }
    }

    /// Points the default of the set at `context` to `new_default_key`.
    /// Fails with `ConfigKeyNotFound` if the context has no variant set or
    /// the key names no variant within it; a failure changes nothing.
    pub fn set_default_config(&mut self, context: CommandContext, new_default_key: &str) -> (r:
        Result<(), ConfigError>)
        requires
            old(self).wf(),
        ensures
            final(self).wf(),
            r is Ok <==> (old(self).slot(context) matches Some(c) && c@.configs.contains_key(
                new_default_key@,
            )),
            r is Err ==> *final(self) == *old(self) && (r matches Err(
                ConfigError::ConfigKeyNotFound(p),
            ) && p@ == new_default_key@),
            r is Ok ==> (old(self).slot(context) matches Some(c1) && final(self).slot(context)
                matches Some(c2) && c2@.configs == c1@.configs && c2@.default == new_default_key@),
            forall|other: CommandContext| other != context ==> final(self).slot(other) == old(
                self,
            ).slot(other),
    {
        match context {
            CommandContext::Run => Self::set_default_in(&mut self.run, new_default_key),
            CommandContext::Test => Self::set_default_in(&mut self.test, new_default_key),
            CommandContext::Build => Self::set_default_in(&mut self.build, new_default_key),
            CommandContext::Bench => Self::set_default_in(&mut self.bench, new_default_key),
            CommandContext::Script => Self::set_default_in(&mut self.script, new_default_key),
        }
    }

    fn set_default_in(slot: &mut Option<CommandConfig>, new_default_key: &str) -> (r: Result<
        (),
        ConfigError,
    >)
        requires
            opt_set_wf(*old(slot)),
        ensures
            opt_set_wf(*final(slot)),
            r is Ok <==> (*old(slot) matches Some(c) && c@.configs.contains_key(new_default_key@)),
            r is Err ==> *final(slot) == *old(slot) && (r matches Err(
                ConfigError::ConfigKeyNotFound(p),
            ) && p@ == new_default_key@),
            r is Ok ==> (*old(slot) matches Some(c1) && *final(slot) matches Some(c2) && c2@.configs
                == c1@.configs && c2@.default == new_default_key@),
    {
        let taken = slot.take();
        match taken {
            Some(mut config) => {
                let r = config.set_default(new_default_key);
                *slot = Some(config);
                r
            },
            None => Err(ConfigError::ConfigKeyNotFound(new_default_key.to_owned())),
        }
    }
}

impl Default for Commands {
    /// The built-in defaults: `run`, `test`, `build` and `bench` each get
    /// their seeded variant set; `script` starts without one.
    fn default() -> (r: Self)
        ensures
            r.wf(),
            r@.run == Some(seed_set_view("run"@)),
            r@.test == Some(seed_set_view("test"@)),
            r@.build == Some(seed_set_view("build"@)),
            r@.bench == Some(seed_set_view("bench"@)),
            r@.script == None::<CommandConfigView>,
    {
        Commands {
            run: Some(CommandConfig::with_context("run")),
            test: Some(CommandConfig::with_context("test")),
            build: Some(CommandConfig::with_context("build")),
            bench: Some(CommandConfig::with_context("bench")),
            script: None,
        }
    }
}

/// The configuration root.
#[derive(Debug, Clone, PartialEq, Eq)]
pub struct Config {
    pub commands: Commands,
}

impl View for Config {
    type V = CommandsView;

    open spec fn view(&self) -> CommandsView {
        self.commands@
    }
}

impl Config {
    pub open spec fn wf(self) -> bool {
        self.commands.wf()
    }

    /// The fail-open step of loading: a parsed root is taken as it stands,
    /// and a failed parse falls back to the built-in defaults, so loading
    /// always yields a usable configuration.
    pub fn or_default(parsed: Option<Config>) -> (r: Config)
        ensures
            parsed matches Some(c) ==> r == c,
            parsed is None ==> r.wf() && r@ == default_config_view(),
    {
        match parsed {
            Some(c) => c,
            None => Config::default(),
        }
    }
}

/// The view of the built-in default configuration root.
pub open spec fn default_config_view() -> CommandsView {
    CommandsView {
        run: Some(seed_set_view("run"@)),
        test: Some(seed_set_view("test"@)),
        build: Some(seed_set_view("build"@)),
        bench: Some(seed_set_view("bench"@)),
        script: None,
    }
}

impl Default for Config {
    /// The built-in default configuration root.
    fn default() -> (r: Self)
        ensures
            r.wf(),
            r@ == default_config_view(),
    {
        Config { commands: Commands::default() }
    }
}

} // verus!
