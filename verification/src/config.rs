//! Configuration: the default profile and the named profiles (command
//! line and starting directory) read from a TOML document, and the spawn
//! triple a profile stands for.

use vstd::prelude::*;
use crate::cmdline::{resolve_spec, resolve as split_commandline};

verus! {

/// A profile: a name, a full command line, and an optional starting
/// directory (`None` = inherit the host's).
#[derive(Clone, Debug, PartialEq, Eq)]
pub struct Profile {
    pub name: String,
    pub commandline: String,
    pub starting_directory: Option<String>,
}

/// A parsed configuration; an absent or corrupt file gives the empty one.
#[derive(Clone, Debug, Default, PartialEq, Eq)]
pub struct Config {
    /// The `default_profile` key (`None` = not declared).
    pub default_profile_name: Option<String>,
    /// The profiles, in declaration order, one per name.
    pub profiles: Vec<Profile>,
}

/// Program, arguments and working directory ("" = inherit) to spawn.
#[derive(Clone, Debug, PartialEq, Eq)]
pub struct SpawnSpec {
    pub program: String,
    pub argv: Vec<String>,
    pub cwd: String,
}

/// One entry of the document's `profiles` array: each field is the
/// string stored under its key (`None` when the key is absent or not a
/// string).
#[derive(Clone, Debug, PartialEq, Eq)]
pub struct TomlEntry {
    pub name: Option<String>,
    pub commandline: Option<String>,
    pub starting_directory: Option<String>,
}

/// What the configuration reads of a TOML document: the string under
/// `default_profile`, and the entries of the `profiles` array (empty when
/// there is no such array).
#[derive(Clone, Debug, PartialEq, Eq)]
pub struct TomlDoc {
    pub default_profile: Option<String>,
    pub profiles: Vec<TomlEntry>,
}

/// A string option by its characters.
pub open spec fn opt_chars(o: Option<String>) -> Option<Seq<char>> {
    match o {
        Some(s) => Some(s@),
        None => None,
    }
}

/// [`TomlEntry`] as plain values.
pub struct EntryView {
    pub name: Option<Seq<char>>,
    pub commandline: Option<Seq<char>>,
    pub starting_directory: Option<Seq<char>>,
}

/// [`TomlDoc`] as plain values.
pub struct DocView {
    pub default_profile: Option<Seq<char>>,
    pub profiles: Seq<EntryView>,
}

/// [`Profile`] as plain values.
pub struct ProfileView {
    pub name: Seq<char>,
    pub commandline: Seq<char>,
    pub starting_directory: Option<Seq<char>>,
}

/// [`Config`] as plain values.
pub struct ConfigView {
    pub default_profile_name: Option<Seq<char>>,
    pub profiles: Seq<ProfileView>,
}

impl View for TomlEntry {
    type V = EntryView;

    open spec fn view(&self) -> EntryView {
        EntryView {
            name: opt_chars(self.name),
            commandline: opt_chars(self.commandline),
            starting_directory: opt_chars(self.starting_directory),
        }
    }
}

impl View for TomlDoc {
    type V = DocView;

    open spec fn view(&self) -> DocView {
        DocView {
            default_profile: opt_chars(self.default_profile),
            profiles: self.profiles@.map_values(|e: TomlEntry| e@),
        }
    }
}

impl View for Profile {
    type V = ProfileView;

    open spec fn view(&self) -> ProfileView {
        ProfileView {
            name: self.name@,
            commandline: self.commandline@,
            starting_directory: opt_chars(self.starting_directory),
        }
    }
}

impl View for Config {
    type V = ConfigView;

    open spec fn view(&self) -> ConfigView {
        ConfigView {
            default_profile_name: opt_chars(self.default_profile_name),
            profiles: self.profiles@.map_values(|p: Profile| p@),
        }
    }
}

/// The document that `toml` reads from `raw` (`None` when `raw` is not a
/// TOML document).
pub uninterp spec fn toml_doc_of(raw: Seq<char>) -> Option<DocView>;

/// A document option by its plain values.
pub open spec fn opt_doc(d: Option<TomlDoc>) -> Option<DocView> {
    match d {
        Some(x) => Some(x@),
        None => None,
    }
}

/// Reads `raw` with `toml::from_str` into a `toml::Value` and picks out
/// the strings under `default_profile` and, for each entry of the
/// `profiles` array, under `name`, `commandline` and
/// `starting_directory`. The contract says only that the result is the
/// document named [`toml_doc_of`] of `raw`; what TOML accepts is not
/// stated.
#[verifier::external_body]
fn toml_document(raw: &str) -> (r: Option<TomlDoc>)
    ensures
        opt_doc(r) == toml_doc_of(raw@),
{
    let v: toml::Value = toml::from_str(raw).ok()?;
    let f = |t: &toml::Value, k: &str| t.get(k).and_then(|x| x.as_str()).map(str::to_owned);
    let items: Vec<toml::Value> = v.get("profiles").and_then(|p| p.as_array()).cloned().unwrap_or_default();
    let profiles = items.iter().map(|t| TomlEntry {
        name: f(t, "name"),
        commandline: f(t, "commandline"),
        starting_directory: f(t, "starting_directory"),
    }).collect();
    Some(TomlDoc { default_profile: f(&v, "default_profile"), profiles })
}

/// Position of the first profile named `name` (-1 = none).
pub open spec fn name_index(s: Seq<ProfileView>, name: Seq<char>) -> int
    decreases s.len(),
{
    if s.len() == 0 {
        -1
    } else {
        let r = name_index(s.drop_last(), name);
        if r >= 0 {
            r
        } else if s.last().name == name {
            s.len() - 1
        } else {
            -1
        }
    }
}

/// The profile an entry declares, if it has both a name and a command
/// line; an empty starting directory counts as none.
pub open spec fn entry_profile(e: EntryView) -> Option<ProfileView> {
    match (e.name, e.commandline) {
        (Some(n), Some(c)) => Some(
            ProfileView {
                name: n,
                commandline: c,
                starting_directory: match e.starting_directory {
                    Some(d) => if d.len() > 0 {
                        Some(d)
                    } else {
                        None
                    },
                    None => None,
                },
            },
        ),
        _ => None,
    }
}

/// The profiles that entries declare, in order: entries lacking a name
/// or command line are skipped, and a repeated name replaces the earlier
/// profile in place.
pub open spec fn merge_entries(es: Seq<EntryView>) -> Seq<ProfileView>
    decreases es.len(),
{
    if es.len() == 0 {
        Seq::empty()
    } else {
        let acc = merge_entries(es.drop_last());
        match entry_profile(es.last()) {
            Some(p) => {
                let k = name_index(acc, p.name);
                if k >= 0 {
                    acc.update(k, p)
                } else {
                    acc.push(p)
                }
            },
            None => acc,
        }
    }
}

/// The configuration a document gives (the empty one without a
/// document).
pub open spec fn config_of(d: Option<DocView>) -> ConfigView {
    match d {
        None => ConfigView { default_profile_name: None, profiles: Seq::empty() },
        Some(doc) => ConfigView {
            default_profile_name: doc.default_profile,
            profiles: merge_entries(doc.profiles),
        },
    }
}

pub proof fn lemma_name_index(s: Seq<ProfileView>, name: Seq<char>)
    ensures
        -1 <= name_index(s, name) < s.len(),
        name_index(s, name) >= 0 ==> s[name_index(s, name)].name == name,
        forall|i: int| 0 <= i < s.len() && (name_index(s, name) < 0 || i < name_index(s, name)) ==> s[i].name != name,
    decreases s.len(),
{
    if s.len() > 0 {
        let d = s.drop_last();
        lemma_name_index(d, name);
        assert forall|i: int| 0 <= i < s.len() && (name_index(s, name) < 0 || i < name_index(s, name)) implies s[i].name != name by {
            if i < s.len() - 1 {
                assert(s[i] == d[i]);
            }
        }
    }
}

/// Every well-formed entry makes a profile: when each entry has a name
/// and a command line and no two share a name, the profiles are exactly
/// the entries, in the document's order, each found by its own name.
pub proof fn lemma_entries_all_become_profiles(es: Seq<EntryView>)
    requires
        forall|i: int| 0 <= i < es.len() ==> (#[trigger] es[i]).name is Some && es[i].commandline is Some,
        forall|i: int, j: int| 0 <= i < j < es.len() ==> (#[trigger] es[i]).name != (#[trigger] es[j]).name,
    ensures
        merge_entries(es).len() == es.len(),
        forall|i: int| 0 <= i < es.len() ==> {
            &&& (#[trigger] merge_entries(es)[i]).name == es[i].name->0
            &&& merge_entries(es)[i].commandline == es[i].commandline->0
            &&& merge_entries(es)[i].starting_directory == (match es[i].starting_directory {
                Some(d) => if d.len() > 0 { Some(d) } else { None },
                None => None,
            })
            &&& name_index(merge_entries(es), es[i].name->0) == i
        },
    decreases es.len(),
{
    if es.len() > 0 {
        let d = es.drop_last();
        assert forall|i: int| 0 <= i < d.len() implies (#[trigger] d[i]).name is Some && d[i].commandline is Some by {
            assert(d[i] == es[i]);
        }
        assert forall|i: int, j: int| 0 <= i < j < d.len() implies (#[trigger] d[i]).name != (#[trigger] d[j]).name by {
            assert(d[i] == es[i] && d[j] == es[j]);
        }
        lemma_entries_all_become_profiles(d);
        let acc = merge_entries(d);
        let last = es[es.len() - 1];
        assert(last.name is Some && last.commandline is Some);
        let p = entry_profile(last)->0;
        lemma_name_index(acc, p.name);
        let k = name_index(acc, p.name);
        if k >= 0 {
            assert(acc[k].name == d[k].name->0);
            assert(d[k] == es[k]);
            assert(es[k].name != es[es.len() - 1].name);
        }
        let r = merge_entries(es);
        assert(r == acc.push(p));
        assert forall|i: int| 0 <= i < es.len() implies {
            &&& (#[trigger] r[i]).name == es[i].name->0
            &&& r[i].commandline == es[i].commandline->0
            &&& r[i].starting_directory == (match es[i].starting_directory {
                Some(d) => if d.len() > 0 { Some(d) } else { None },
                None => None,
            })
            &&& name_index(r, es[i].name->0) == i
        } by {
            if i < d.len() {
                assert(d[i] == es[i]);
                assert(r[i] == acc[i]);
                assert(r.drop_last() =~= acc);
            } else {
                assert(r.drop_last() =~= acc);
            }
        }
    }
}

/// Reading a document keeps its default profile and turns each of its
/// well-formed, distinctly named entries into a profile, in order, each
/// found by its name.
pub proof fn lemma_document_profiles(doc: DocView)
    requires
        forall|i: int| 0 <= i < doc.profiles.len() ==> (#[trigger] doc.profiles[i]).name is Some
            && doc.profiles[i].commandline is Some,
        forall|i: int, j: int| 0 <= i < j < doc.profiles.len() ==> (#[trigger] doc.profiles[i]).name
            != (#[trigger] doc.profiles[j]).name,
    ensures
        config_of(Some(doc)).default_profile_name == doc.default_profile,
        config_of(Some(doc)).profiles.len() == doc.profiles.len(),
        forall|i: int| 0 <= i < doc.profiles.len() ==> {
            &&& (#[trigger] config_of(Some(doc)).profiles[i]).name == doc.profiles[i].name->0
            &&& config_of(Some(doc)).profiles[i].commandline == doc.profiles[i].commandline->0
            &&& config_of(Some(doc)).profiles[i].starting_directory == (match doc.profiles[i].starting_directory {
                Some(d) => if d.len() > 0 { Some(d) } else { None },
                None => None,
            })
            &&& name_index(config_of(Some(doc)).profiles, doc.profiles[i].name->0) == i
        },
{
    lemma_entries_all_become_profiles(doc.profiles);
}

/// Names are unique after merging: a configuration holds one profile per
/// name, whatever repeats the document has.
pub proof fn lemma_merge_unique_names(es: Seq<EntryView>)
    ensures
        forall|i: int, j: int|
            0 <= i < j < merge_entries(es).len() ==> merge_entries(es)[i].name != merge_entries(es)[j].name,
    decreases es.len(),
{
    if es.len() > 0 {
        let acc = merge_entries(es.drop_last());
        lemma_merge_unique_names(es.drop_last());
        match entry_profile(es.last()) {
            Some(p) => {
                lemma_name_index(acc, p.name);
                let k = name_index(acc, p.name);
                let r = merge_entries(es);
                if k >= 0 {
                    assert forall|i: int, j: int| 0 <= i < j < r.len() implies r[i].name != r[j].name by {
                        if i != k && j != k {
                            assert(r[i] == acc[i] && r[j] == acc[j]);
                        } else if i == k {
                            assert(r[j] == acc[j]);
                            assert(acc[k].name == p.name);
                        } else {
                            assert(r[i] == acc[i]);
                            assert(acc[k].name == p.name);
                        }
                    }
                } else {
                    assert forall|i: int, j: int| 0 <= i < j < r.len() implies r[i].name != r[j].name by {
                        if j < acc.len() {
                            assert(r[i] == acc[i] && r[j] == acc[j]);
                        } else {
                            assert(r[i] == acc[i]);
                        }
                    }
                }
            },
            None => {},
        }
    }
}

/// A later entry wins: after merging, the profile named by the last
/// well-formed entry is that entry's profile.
pub proof fn lemma_merge_latest_wins(es: Seq<EntryView>)
    requires
        es.len() > 0,
        entry_profile(es.last()) is Some,
    ensures
        ({
            let p = entry_profile(es.last())->0;
            let r = merge_entries(es);
            &&& name_index(r, p.name) >= 0
            &&& r[name_index(r, p.name)] == p
        }),
{
    let p = entry_profile(es.last())->0;
    let acc = merge_entries(es.drop_last());
    let r = merge_entries(es);
    lemma_name_index(acc, p.name);
    lemma_name_index(r, p.name);
    lemma_merge_unique_names(es);
    let k = name_index(acc, p.name);
    if k >= 0 {
        assert(r[k] == p);
        let f = name_index(r, p.name);
        if f != k {
            if f < k {
                assert(r[f].name == p.name);
            } else {
                assert(r[k].name == p.name);
            }
        }
    } else {
        assert(r.last() == p);
        let f = name_index(r, p.name);
        if f >= 0 && f != r.len() - 1 {
            assert(r[f].name == p.name);
        }
    }
}

fn clone_opt(o: &Option<String>) -> (r: Option<String>)
    ensures
        opt_chars(r) == opt_chars(*o),
{
    match o {
        Some(s) => Some(s.clone()),
        None => None,
    }
}

fn clone_profile(p: &Profile) -> (r: Profile)
    ensures
        r@ == p@,
{
    Profile {
        name: p.name.clone(),
        commandline: p.commandline.clone(),
        starting_directory: clone_opt(&p.starting_directory),
    }
}

/// Position of the first profile named `name` in `ps` (-1 = none).
fn find_profile(ps: &Vec<Profile>, name: &String) -> (r: Option<usize>)
    ensures
        r is Some <==> name_index(ps@.map_values(|p: Profile| p@), name@) >= 0,
        r is Some ==> r->0 == name_index(ps@.map_values(|p: Profile| p@), name@),
{
    let ghost vs = ps@.map_values(|p: Profile| p@);
    let mut i: usize = 0;
    while i < ps.len()
        invariant
            i <= ps@.len(),
            vs == ps@.map_values(|p: Profile| p@),
            forall|k: int| 0 <= k < i ==> vs[k].name != name@,
        decreases ps@.len() - i,
    {
        if ps[i].name == *name {
            proof {
                lemma_name_index(vs, name@);
                let f = name_index(vs, name@);
                if f < 0 || f > i {
                    assert(vs[i as int].name == name@);
                }
            }
            return Some(i);
        }
        i = i + 1;
    }
    proof {
        lemma_name_index(vs, name@);
        if name_index(vs, name@) >= 0 {
            assert(vs[name_index(vs, name@)].name == name@);
        }
    }
    None
}

impl Config {
    /// The configuration a read document gives (see [`config_of`]).
    pub fn from_document(doc: Option<TomlDoc>) -> (c: Config)
        ensures
            c@ == config_of(opt_doc(doc)),
    {
        let d = match doc {
            None => {
                let c = Config { default_profile_name: None, profiles: Vec::new() };
                proof {
                    assert(c@.profiles =~= Seq::<ProfileView>::empty());
                }
                return c;
            },
            Some(d) => d,
        };
        let ghost es = d.profiles@.map_values(|e: TomlEntry| e@);
        let mut profiles: Vec<Profile> = Vec::new();
        let mut i: usize = 0;
        while i < d.profiles.len()
            invariant
                i <= d.profiles@.len(),
                es == d.profiles@.map_values(|e: TomlEntry| e@),
                profiles@.map_values(|p: Profile| p@) == merge_entries(es.take(i as int)),
            decreases d.profiles@.len() - i,
        {
            proof {
                assert(es.take(i as int + 1).drop_last() =~= es.take(i as int));
                assert(es.take(i as int + 1).last() == d.profiles@[i as int]@);
            }
            let e = &d.profiles[i];
            match (&e.name, &e.commandline) {
                (Some(n), Some(cl)) => {
                    let sd: Option<String> = match &e.starting_directory {
                        Some(s) => if !s.as_str().is_empty() {
                            Some(s.clone())
                        } else {
                            None
                        },
                        None => None,
                    };
                    let p = Profile { name: n.clone(), commandline: cl.clone(), starting_directory: sd };
                    let ghost before = profiles@.map_values(|p: Profile| p@);
                    assert(entry_profile(d.profiles@[i as int]@) == Some(p@));
                    let k = find_profile(&profiles, n);
                    proof {
                        lemma_name_index(before, n@);
                    }
                    match k {
                        Some(k) => {
                            profiles.set(k, p);
                            proof {
                                assert(profiles@.map_values(|p: Profile| p@) =~= before.update(k as int, p@));
                            }
                        },
                        None => {
                            profiles.push(p);
                            proof {
                                assert(profiles@.map_values(|p: Profile| p@) =~= before.push(p@));
                            }
                        },
                    }
                },
                _ => {
                    assert(entry_profile(d.profiles@[i as int]@) is None);
                },
            }
            i = i + 1;
        }
        proof {
            assert(es.take(d.profiles@.len() as int) =~= es);
        }
        let c = Config { default_profile_name: d.default_profile, profiles };
        c
    }

    /// Parse configuration text; text that is not a TOML document gives
    /// the empty configuration, entries lacking a name or command line are
    /// skipped, and a repeated name replaces the earlier profile.
    pub fn parse(raw: &str) -> (c: Config)
        ensures
            c@ == config_of(toml_doc_of(raw@)),
    {
        Config::from_document(toml_document(raw))
    }

    /// The first profile named `name`.
    pub fn profile(&self, name: &str) -> (r: Option<&Profile>)
        ensures
            r is Some <==> name_index(self@.profiles, name@) >= 0,
            r is Some ==> r->0@ == self@.profiles[name_index(self@.profiles, name@)],
    {
        let owned: String = name.to_owned();
        let k = find_profile(&self.profiles, &owned);
        proof {
            lemma_name_index(self@.profiles, name@);
        }
        match k {
            None => None,
            Some(k) => Some(&self.profiles[k]),
        }
    }

    /// The profile named by `default_profile` (`None` when the key is
    /// absent or names no profile).
    pub fn default_profile(&self) -> (r: Option<&Profile>)
        ensures
            match self@.default_profile_name {
                None => r is None,
                Some(n) => {
                    &&& (r is Some <==> name_index(self@.profiles, n) >= 0)
                    &&& r is Some ==> r->0@ == self@.profiles[name_index(self@.profiles, n)]
                },
            },
    {
        match &self.default_profile_name {
            None => None,
            Some(n) => self.profile(n.as_str()),
        }
    }

    /// The spawn triple of a profile: its command line split by
    /// [`Config::resolve`], and its starting directory ("" = none).
    pub fn spawn_spec(profile: &Profile) -> (s: SpawnSpec)
        ensures
            s.program@ == resolve_spec(profile.commandline@).0,
            s.argv@.len() == resolve_spec(profile.commandline@).1.len(),
            forall|i: int| 0 <= i < s.argv@.len() ==> (#[trigger] s.argv@[i])@ == resolve_spec(
                profile.commandline@,
            ).1[i],
            s.cwd@ == (match opt_chars(profile.starting_directory) {
                Some(d) => d,
                None => Seq::<char>::empty(),
            }),
    {
        let (program, argv) = Config::resolve(profile.commandline.as_str());
        let cwd: String = match &profile.starting_directory {
            Some(d) => d.clone(),
            None => String::new(),
        };
        SpawnSpec { program, argv, cwd }
    }

    /// The profile a spawn request names: the default profile for the
    /// empty name, else the profile of that name (`None` = spawn the
    /// platform's default shell).
    pub fn profile_for(&self, name: &str) -> (r: Option<&Profile>)
        ensures
            name@.len() == 0 ==> match self@.default_profile_name {
                None => r is None,
                Some(n) => {
                    &&& (r is Some <==> name_index(self@.profiles, n) >= 0)
                    &&& r is Some ==> r->0@ == self@.profiles[name_index(self@.profiles, n)]
                },
            },
            name@.len() > 0 ==> {
                &&& (r is Some <==> name_index(self@.profiles, name@) >= 0)
                &&& r is Some ==> r->0@ == self@.profiles[name_index(self@.profiles, name@)]
            },
    {
        if name.is_empty() {
            self.default_profile()
        } else {
            self.profile(name)
        }
    }

    /// Split a command line into program and arguments: after trimming, a
    /// leading double quote runs to the next one and names the program,
    /// else the program ends at the first white space; the rest splits at
    /// white space.
    pub fn resolve(commandline: &str) -> (r: (String, Vec<String>))
        ensures
            r.0@ == resolve_spec(commandline@).0,
            r.1@.len() == resolve_spec(commandline@).1.len(),
            forall|i: int| 0 <= i < r.1@.len() ==> (#[trigger] r.1@[i])@ == resolve_spec(commandline@).1[i],
    {
        split_commandline(commandline)
    }
}

/// The profile a launch names: the named one, or the default profile when
/// no name or an empty name is given (`None` = no such profile).
pub open spec fn launch_profile(c: ConfigView, name: Option<Seq<char>>) -> Option<ProfileView> {
    let wanted = if name is Some && name->0.len() > 0 { name } else { c.default_profile_name };
    match wanted {
        None => None,
        Some(n) => if name_index(c.profiles, n) >= 0 {
            Some(c.profiles[name_index(c.profiles, n)])
        } else {
            None
        },
    }
}

/// What the terminal window starts, as plain values: an explicit shell
/// wins (no arguments, inherited directory); else the launch profile's
/// command line split by [`resolve_spec`] and its starting directory (an
/// empty one is inherited); else `pwsh` when no profile was named. `None`
/// when a profile was named (even an empty name) and none is found.
pub open spec fn launch_view(c: ConfigView, shell: Option<Seq<char>>, name: Option<Seq<char>>) -> Option<
    (Seq<char>, Seq<Seq<char>>, Option<Seq<char>>),
> {
    match shell {
        Some(sh) => Some((sh, Seq::empty(), None)),
        None => match launch_profile(c, name) {
            Some(p) => {
                let cwd = match p.starting_directory {
                    Some(d) => if d.len() > 0 { Some(d) } else { None },
                    None => None,
                };
                Some((resolve_spec(p.commandline).0, resolve_spec(p.commandline).1, cwd))
            },
            None => if name is Some {
                None
            } else {
                Some(("pwsh"@, Seq::empty(), None))
            },
        },
    }
}

/// A launch triple by its views.
pub open spec fn launch_of(r: Option<(String, Vec<String>, Option<String>)>) -> Option<
    (Seq<char>, Seq<Seq<char>>, Option<Seq<char>>),
> {
    match r {
        None => None,
        Some(t) => Some((t.0@, t.1@.map_values(|a: String| a@), opt_chars(t.2))),
    }
}

/// Program, arguments and working directory (`None` = inherit) the
/// terminal window starts for its `--shell` and `--profile` options (see
/// [`launch_view`]); `None` = the named profile does not exist.
pub fn launch_spec(cfg: &Config, shell: Option<String>, profile: Option<String>) -> (r: Option<
    (String, Vec<String>, Option<String>),
>)
    ensures
        launch_of(r) == launch_view(cfg@, opt_chars(shell), opt_chars(profile)),
{
    if let Some(sh) = shell {
        let argv: Vec<String> = Vec::new();
        proof {
            assert(argv@.map_values(|a: String| a@) =~= Seq::<Seq<char>>::empty());
        }
        return Some((sh, argv, None));
    }
    let named: bool = match &profile {
        Some(n) => !n.as_str().is_empty(),
        None => false,
    };
    let chosen: Option<&Profile> = if named {
        match &profile {
            Some(n) => cfg.profile(n.as_str()),
            None => None,
        }
    } else {
        cfg.default_profile()
    };
    match chosen {
        Some(p) => {
            let spec = Config::spawn_spec(p);
            let cwd: Option<String> = if spec.cwd.as_str().is_empty() {
                None
            } else {
                Some(spec.cwd)
            };
            proof {
                assert(spec.argv@.map_values(|a: String| a@) =~= resolve_spec(p@.commandline).1);
            }
            Some((spec.program, spec.argv, cwd))
        },
        None => {
            if profile.is_some() {
                None
            } else {
                let argv: Vec<String> = Vec::new();
                proof {
                    assert(argv@.map_values(|a: String| a@) =~= Seq::<Seq<char>>::empty());
                }
                Some(("pwsh".to_owned(), argv, None))
            }
        },
    }
}

/// The profile names, in declaration order.
pub fn term_profile_names(cfg: &Config) -> (names: Vec<String>)
    ensures
        names@.len() == cfg@.profiles.len(),
        forall|i: int| 0 <= i < names@.len() ==> (#[trigger] names@[i])@ == cfg@.profiles[i].name,
{
    let mut names: Vec<String> = Vec::new();
    let mut i: usize = 0;
    while i < cfg.profiles.len()
        invariant
            i <= cfg.profiles@.len(),
            names@.len() == i,
            forall|k: int| 0 <= k < i ==> (#[trigger] names@[k])@ == cfg@.profiles[k].name,
        decreases cfg.profiles@.len() - i,
    {
        names.push(cfg.profiles[i].name.clone());
        i = i + 1;
    }
    names
}

} // verus!
