//! Package-name aliases: a two-level mapping from an abstract package name
//! to a concrete name per package source.
//!
//! Lookups go by first match, so overriding an entry means putting the new
//! binding in front.  Merging a local alias table over a global one wins
//! key-by-key, not file-by-file: a package keeps its global bindings for
//! every source the local table does not rebind.

use vstd::prelude::*;
use crate::config::{PackageManager, PackageSource, Repository, spec_repository_managers};

verus! {

/// One binding: for this source, the package goes by this concrete name.
#[derive(Debug)]
pub struct AliasTarget {
    pub source: PackageSource,
    pub value: String,
}

/// Mathematical image of an `AliasTarget`.
#[verifier::ext_equal]
pub struct AliasTargetV {
    pub source: PackageSource,
    pub value: Seq<char>,
}

impl View for AliasTarget {
    type V = AliasTargetV;

    open spec fn view(&self) -> AliasTargetV {
        AliasTargetV { source: self.source, value: self.value@ }
    }
}

impl DeepView for AliasTarget {
    type V = AliasTargetV;

    open spec fn deep_view(&self) -> AliasTargetV {
        self@
    }
}

impl Clone for AliasTarget {
    /// A binding clone is indistinguishable from the original.
    fn clone(&self) -> (res: Self)
        ensures
            res == *self,
    {
        AliasTarget { source: self.source, value: self.value.clone() }
    }
}

/// All bindings of one abstract package name.
#[derive(Debug)]
pub struct AliasEntry {
    pub name: String,
    pub targets: Vec<AliasTarget>,
}

/// Mathematical image of an `AliasEntry`.
#[verifier::ext_equal]
pub struct AliasEntryV {
    pub name: Seq<char>,
    pub targets: Seq<AliasTargetV>,
}

impl View for AliasEntry {
    type V = AliasEntryV;

    open spec fn view(&self) -> AliasEntryV {
        AliasEntryV { name: self.name@, targets: self.targets.deep_view() }
    }
}

impl DeepView for AliasEntry {
    type V = AliasEntryV;

    open spec fn deep_view(&self) -> AliasEntryV {
        self@
    }
}

impl Clone for AliasEntry {
    /// An entry clone has the same image as the original.
    fn clone(&self) -> (res: Self)
        ensures
            res@ == self@,
    {
        let res = AliasEntry { name: self.name.clone(), targets: self.targets.clone() };
        proof {
            assert(res.targets.deep_view() =~= self.targets.deep_view());
        }
        res
    }
}

/// The concrete name bound to `src`, by first match.
pub open spec fn spec_lookup_targets(ts: Seq<AliasTargetV>, src: PackageSource) -> Option<Seq<char>>
    decreases ts.len(),
{
    if ts.len() == 0 {
        None
    } else if ts[0].source == src {
        Some(ts[0].value)
    } else {
        spec_lookup_targets(ts.drop_first(), src)
    }
}

/// The bindings of `name`, by first match.
pub open spec fn spec_lookup_entry(es: Seq<AliasEntryV>, name: Seq<char>) -> Option<
    Seq<AliasTargetV>,
>
    decreases es.len(),
{
    if es.len() == 0 {
        None
    } else if es[0].name == name {
        Some(es[0].targets)
    } else {
        spec_lookup_entry(es.drop_first(), name)
    }
}

/// The concrete name an alias table binds to `(pkg, src)`, if any.
pub open spec fn spec_alias_value(
    es: Seq<AliasEntryV>,
    pkg: Seq<char>,
    src: PackageSource,
) -> Option<Seq<char>> {
    match spec_lookup_entry(es, pkg) {
        Some(ts) => spec_lookup_targets(ts, src),
        None => None,
    }
}

/// The first of two optional values.
pub open spec fn or_value(a: Option<Seq<char>>, b: Option<Seq<char>>) -> Option<Seq<char>> {
    match a {
        Some(v) => Some(v),
        None => b,
    }
}

/// The source an alias lookup uses for a manager: managers that serve a
/// repository look the repository's bindings up, the rest their own.
pub open spec fn spec_manager_source(m: PackageManager) -> PackageSource {
    if spec_repository_managers(Repository::Aur).contains(m) {
        PackageSource::Repository(Repository::Aur)
    } else {
        PackageSource::Manager(m)
    }
}

/// What resolving one package name returns: the bound concrete name, or
/// the abstract name unchanged when nothing is bound.
pub open spec fn spec_resolve(
    es: Seq<AliasEntryV>,
    pkg: Seq<char>,
    m: PackageManager,
) -> Seq<char> {
    match spec_alias_value(es, pkg, spec_manager_source(m)) {
        Some(v) => v,
        None => pkg,
    }
}

/// Looking a binding up in concatenated bindings: the front wins.
proof fn lemma_lookup_targets_concat(t1: Seq<AliasTargetV>, t2: Seq<AliasTargetV>, src: PackageSource)
    ensures
        spec_lookup_targets(t1 + t2, src) == or_value(
            spec_lookup_targets(t1, src),
            spec_lookup_targets(t2, src),
        ),
    decreases t1.len(),
{
    if t1.len() == 0 {
        assert(t1 + t2 =~= t2);
    } else {
        assert((t1 + t2)[0] == t1[0]);
        assert((t1 + t2).drop_first() =~= t1.drop_first() + t2);
        lemma_lookup_targets_concat(t1.drop_first(), t2, src);
    }
}

/// Looking an entry up in concatenated tables: the front wins.
proof fn lemma_lookup_entry_concat(e1: Seq<AliasEntryV>, e2: Seq<AliasEntryV>, name: Seq<char>)
    ensures
        spec_lookup_entry(e1 + e2, name) == (match spec_lookup_entry(e1, name) {
            Some(ts) => Some(ts),
            None => spec_lookup_entry(e2, name),
        }),
    decreases e1.len(),
{
    if e1.len() == 0 {
        assert(e1 + e2 =~= e2);
    } else {
        assert((e1 + e2)[0] == e1[0]);
        assert((e1 + e2).drop_first() =~= e1.drop_first() + e2);
        lemma_lookup_entry_concat(e1.drop_first(), e2, name);
    }
}

/// Appending one entry only answers names the table did not know.
proof fn lemma_lookup_entry_push(es: Seq<AliasEntryV>, e: AliasEntryV, name: Seq<char>)
    ensures
        spec_lookup_entry(es.push(e), name) == (match spec_lookup_entry(es, name) {
            Some(ts) => Some(ts),
            None => if e.name == name {
                Some(e.targets)
            } else {
                None
            },
        }),
{
    assert(es.push(e) =~= es + seq![e]);
    lemma_lookup_entry_concat(es, seq![e], name);
    assert(spec_lookup_entry(seq![e], name) == (if e.name == name {
        Some(e.targets)
    } else {
        None::<Seq<AliasTargetV>>
    })) by {
        assert(seq![e][0] == e);
        assert(seq![e].drop_first() =~= Seq::<AliasEntryV>::empty());
        assert(spec_lookup_entry(Seq::<AliasEntryV>::empty(), name) is None);
    }
}

/// A first match found by index search is the first match of the lookup.
proof fn lemma_lookup_entry_index(es: Seq<AliasEntryV>, name: Seq<char>, k: int)
    requires
        0 <= k <= es.len(),
        forall|j: int| 0 <= j < k ==> es[j].name != name,
        k == es.len() || es[k].name == name,
    ensures
        spec_lookup_entry(es, name) == if k < es.len() {
            Some(es[k].targets)
        } else {
            None::<Seq<AliasTargetV>>
        },
    decreases k,
{
    if k > 0 {
        lemma_lookup_entry_index(es.drop_first(), name, k - 1);
    }
}

/// Same, for bindings inside one entry.
proof fn lemma_lookup_targets_index(ts: Seq<AliasTargetV>, src: PackageSource, k: int)
    requires
        0 <= k <= ts.len(),
        forall|j: int| 0 <= j < k ==> ts[j].source != src,
        k == ts.len() || ts[k].source == src,
    ensures
        spec_lookup_targets(ts, src) == if k < ts.len() {
            Some(ts[k].value)
        } else {
            None::<Seq<char>>
        },
    decreases k,
{
    if k == 0 {
    } else {
        lemma_lookup_targets_index(ts.drop_first(), src, k - 1);
    }
}

/// Finds the first entry whose name is `name`.
fn find_entry(entries: &Vec<AliasEntry>, name: &String) -> (r: Option<usize>)
    ensures
        match r {
            Some(k) => k < entries@.len() && spec_lookup_entry(entries.deep_view(), name@)
                == Some(entries.deep_view()[k as int].targets),
            None => spec_lookup_entry(entries.deep_view(), name@) is None,
        },
{
    let ghost dv = entries.deep_view();
    let mut i: usize = 0;
    while i < entries.len()
        invariant
            i <= entries@.len(),
            dv == entries.deep_view(),
            forall|j: int| 0 <= j < i ==> dv[j].name != name@,
        decreases entries@.len() - i,
    {
        assert(dv[i as int] == entries@[i as int]@);
        if entries[i].name == *name {
            proof {
                lemma_lookup_entry_index(dv, name@, i as int);
            }
            return Some(i);
        }
        i = i + 1;
    }
    proof {
        lemma_lookup_entry_index(dv, name@, dv.len() as int);
    }
    None
}

/// Finds the first binding for `src` inside one entry.
fn find_target(ts: &Vec<AliasTarget>, src: PackageSource) -> (r: Option<usize>)
    ensures
        match r {
            Some(k) => k < ts@.len() && spec_lookup_targets(ts.deep_view(), src)
                == Some(ts.deep_view()[k as int].value),
            None => spec_lookup_targets(ts.deep_view(), src) is None,
        },
{
    let ghost dv = ts.deep_view();
    let mut i: usize = 0;
    while i < ts.len()
        invariant
            i <= ts@.len(),
            dv == ts.deep_view(),
            forall|j: int| 0 <= j < i ==> dv[j].source != src,
        decreases ts@.len() - i,
    {
        assert(dv[i as int] == ts@[i as int]@);
        if ts[i].source == src {
            proof {
                lemma_lookup_targets_index(dv, src, i as int);
            }
            return Some(i);
        }
        i = i + 1;
    }
    proof {
        lemma_lookup_targets_index(dv, src, dv.len() as int);
    }
    None
}

/// The alias lookup source of a manager; see `spec_manager_source`.
fn manager_source(m: &PackageManager) -> (r: PackageSource)
    ensures
        r == spec_manager_source(*m),
{
    match m {
        PackageManager::Yay | PackageManager::Paru => {
            proof {
                assert(spec_repository_managers(Repository::Aur).contains(*m)) by {
                    if *m == PackageManager::Yay {
                        assert(spec_repository_managers(Repository::Aur)[0] == PackageManager::Yay);
                    } else {
                        assert(spec_repository_managers(Repository::Aur)[1] == PackageManager::Paru);
                    }
                }
            }
            PackageSource::Repository(Repository::Aur)
        },
        _ => {
            proof {
                assert(!spec_repository_managers(Repository::Aur).contains(*m)) by {
                    assert(spec_repository_managers(Repository::Aur)[0] == PackageManager::Yay);
                    assert(spec_repository_managers(Repository::Aur)[1] == PackageManager::Paru);
                }
            }
            PackageSource::Manager(*m)
        },
    }
}

/// The layered alias tables, looked up by first match.
#[derive(Debug)]
pub struct PackageAliases {
    entries: Vec<AliasEntry>,
}

impl View for PackageAliases {
    type V = Seq<AliasEntryV>;

    closed spec fn view(&self) -> Seq<AliasEntryV> {
        self.entries.deep_view()
    }
}

impl Default for PackageAliases {
    /// An empty table: every name resolves to itself.
    fn default() -> (r: Self)
        ensures
            r@ == Seq::<AliasEntryV>::empty(),
    {
        PackageAliases { entries: Vec::new() }
    }
}

impl PackageAliases {
    /// An empty table.
    pub fn new() -> (r: Self)
        ensures
            r@ == Seq::<AliasEntryV>::empty(),
    {
        PackageAliases { entries: Vec::new() }
    }

    /// Binds `name` to `targets`, shadowing any earlier entry for `name`.
    pub fn insert(&mut self, name: String, targets: Vec<AliasTarget>)
        ensures
            final(self)@ == seq![
                AliasEntryV { name: name@, targets: targets.deep_view() },
            ] + old(self)@,
    {
        let e = AliasEntry { name, targets };
        self.entries.insert(0, e);
        proof {
            assert(self.entries.deep_view() =~= seq![
                AliasEntryV { name: e.name@, targets: e.targets.deep_view() },
            ] + old(self)@);
        }
    }

    /// Resolves one abstract package name for `manager`: the bound concrete
    /// name if the table has one for the manager's source, else the name
    /// itself.
    pub fn resolve_name(&self, package: &str, manager: &PackageManager) -> (r: String)
        ensures
            r@ == spec_resolve(self@, package@, *manager),
    {
        let source = manager_source(manager);
        let pkg_string = package.to_owned();
        match find_entry(&self.entries, &pkg_string) {
            Some(k) => {
                match find_target(&self.entries[k].targets, source) {
                    Some(t) => {
                        assert(self.entries[k as int].targets.deep_view()
                            == self.entries.deep_view()[k as int].targets);
                        self.entries[k].targets[t].value.clone()
                    },
                    None => pkg_string,
                }
            },
            None => pkg_string,
        }
    }

    /// Resolves a package list element-wise.
    pub fn resolve_names(&self, packages: &Vec<String>, manager: &PackageManager) -> (r: Vec<
        String,
    >)
        ensures
            r.deep_view() == packages.deep_view().map_values(
                |p: Seq<char>| spec_resolve(self@, p, *manager),
            ),
    {
        let ghost pv = packages.deep_view();
        let mut out: Vec<String> = Vec::new();
        let mut i: usize = 0;
        while i < packages.len()
            invariant
                i <= packages@.len(),
                pv == packages.deep_view(),
                out.deep_view() =~= pv.take(i as int).map_values(
                    |p: Seq<char>| spec_resolve(self@, p, *manager),
                ),
            decreases packages@.len() - i,
        {
            let ghost pre = out.deep_view();
            let name = self.resolve_name(packages[i].as_str(), manager);
            out.push(name);
            proof {
                assert(out.deep_view() =~= pre.push(name@));
                assert(pv.take(i as int + 1).map_values(
                    |p: Seq<char>| spec_resolve(self@, p, *manager),
                ) =~= pre.push(name@));
            }
            i = i + 1;
        }
        proof {
            assert(pv.take(packages@.len() as int) =~= pv);
        }
        out
    }

    /// Overlays `other` (the local table) over `self` (the global one).
    /// Key-by-key: for every package and source, the merged table answers
    /// with `other`'s binding when it has one, else with `self`'s.
    pub fn merge(&self, other: &PackageAliases) -> (r: PackageAliases)
        ensures
            forall|pkg: Seq<char>, src: PackageSource|
                #![trigger spec_alias_value(r@, pkg, src)]
                spec_alias_value(r@, pkg, src) == or_value(
                    spec_alias_value(other@, pkg, src),
                    spec_alias_value(self@, pkg, src),
                ),
    {
        let ghost av = self@;
        let ghost bv = other@;
        let mut entries: Vec<AliasEntry> = Vec::new();
        let mut i: usize = 0;
        while i < other.entries.len()
            invariant
                i <= bv.len(),
                av == self@,
                bv == other@,
                bv == other.entries.deep_view(),
                av == self.entries.deep_view(),
                forall|pkg: Seq<char>, src: PackageSource|
                    #![trigger spec_alias_value(entries.deep_view(), pkg, src)]
                    spec_alias_value(entries.deep_view(), pkg, src) == (
                    if spec_lookup_entry(bv.take(i as int), pkg) is Some {
                        or_value(spec_alias_value(bv, pkg, src), spec_alias_value(av, pkg, src))
                    } else {
                        None::<Seq<char>>
                    }),
                forall|pkg: Seq<char>|
                    #![trigger spec_lookup_entry(entries.deep_view(), pkg)]
                    spec_lookup_entry(entries.deep_view(), pkg) is Some == spec_lookup_entry(
                        bv.take(i as int),
                        pkg,
                    ) is Some,
            decreases bv.len() - i,
        {
            let ghost cur = entries.deep_view();
            let o = &other.entries[i];
            assert(o@ == bv[i as int]);
            let mut ts = o.targets.clone();
            assert(ts.deep_view() =~= bv[i as int].targets);
            let ghost a_tail: Seq<AliasTargetV> = match spec_lookup_entry(av, bv[i as int].name) {
                Some(t) => t,
                None => Seq::empty(),
            };
            match find_entry(&self.entries, &o.name) {
                Some(k) => {
                    let mut extra = self.entries[k].targets.clone();
                    assert(extra.deep_view() =~= a_tail);
                    let ghost ts_pre = ts.deep_view();
                    ts.append(&mut extra);
                    proof {
                        assert(ts.deep_view() =~= ts_pre + a_tail);
                    }
                },
                None => {
                    proof {
                        assert(ts.deep_view() =~= bv[i as int].targets + a_tail);
                    }
                },
            }
            let e = AliasEntry { name: o.name.clone(), targets: ts };
            assert(e@.name == bv[i as int].name);
            assert(e@.targets == bv[i as int].targets + a_tail);
            entries.push(e);
            proof {
                assert(entries.deep_view() =~= cur.push(e@));
                crate::seqs::lemma_take_step(bv, i as int);
                assert forall|pkg: Seq<char>, src: PackageSource|
                    #![trigger spec_alias_value(entries.deep_view(), pkg, src)]
                    spec_alias_value(entries.deep_view(), pkg, src) == (
                    if spec_lookup_entry(bv.take(i as int + 1), pkg) is Some {
                        or_value(spec_alias_value(bv, pkg, src), spec_alias_value(av, pkg, src))
                    } else {
                        None::<Seq<char>>
                    }) by {
                    let prev_val = spec_alias_value(cur, pkg, src);
                    lemma_lookup_entry_push(cur, e@, pkg);
                    lemma_lookup_entry_push(bv.take(i as int), bv[i as int], pkg);
                    if spec_lookup_entry(cur, pkg) is None && pkg == bv[i as int].name {
                        // first occurrence of this name inside `bv`
                        assert(bv =~= bv.take(i as int) + bv.skip(i as int));
                        lemma_lookup_entry_concat(bv.take(i as int), bv.skip(i as int), pkg);
                        assert(bv.skip(i as int)[0] == bv[i as int]);
                        assert(spec_lookup_entry(bv.skip(i as int), pkg) == Some(
                            bv[i as int].targets,
                        ));
                        lemma_lookup_targets_concat(bv[i as int].targets, a_tail, src);
                        assert(spec_lookup_targets(Seq::<AliasTargetV>::empty(), src) is None);
                    }
                }
                assert forall|pkg: Seq<char>|
                    #![trigger spec_lookup_entry(entries.deep_view(), pkg)]
                    spec_lookup_entry(entries.deep_view(), pkg) is Some == spec_lookup_entry(
                        bv.take(i as int + 1),
                        pkg,
                    ) is Some by {
                    lemma_lookup_entry_push(cur, e@, pkg);
                    lemma_lookup_entry_push(bv.take(i as int), bv[i as int], pkg);
                }
            }
            i = i + 1;
        }
        proof {
            assert(bv.take(bv.len() as int) =~= bv);
        }
        let mut j: usize = 0;
        while j < self.entries.len()
            invariant
                j <= av.len(),
                av == self@,
                bv == other@,
                av == self.entries.deep_view(),
                bv == other.entries.deep_view(),
                forall|pkg: Seq<char>, src: PackageSource|
                    #![trigger spec_alias_value(entries.deep_view(), pkg, src)]
                    spec_alias_value(entries.deep_view(), pkg, src) == (
                    if spec_lookup_entry(bv, pkg) is Some {
                        or_value(spec_alias_value(bv, pkg, src), spec_alias_value(av, pkg, src))
                    } else if spec_lookup_entry(av.take(j as int), pkg) is Some {
                        spec_alias_value(av, pkg, src)
                    } else {
                        None::<Seq<char>>
                    }),
                forall|pkg: Seq<char>|
                    #![trigger spec_lookup_entry(entries.deep_view(), pkg)]
                    spec_lookup_entry(entries.deep_view(), pkg) is Some == (spec_lookup_entry(
                        bv,
                        pkg,
                    ) is Some || spec_lookup_entry(av.take(j as int), pkg) is Some),
            decreases av.len() - j,
        {
            let ghost cur = entries.deep_view();
            let a = &self.entries[j];
            assert(a@ == av[j as int]);
            match find_entry(&other.entries, &a.name) {
                Some(_) => {
                    proof {
                        assert forall|pkg: Seq<char>, src: PackageSource|
                            #![trigger spec_alias_value(entries.deep_view(), pkg, src)]
                            spec_alias_value(entries.deep_view(), pkg, src) == (
                            if spec_lookup_entry(bv, pkg) is Some {
                                or_value(
                                    spec_alias_value(bv, pkg, src),
                                    spec_alias_value(av, pkg, src),
                                )
                            } else if spec_lookup_entry(av.take(j as int + 1), pkg) is Some {
                                spec_alias_value(av, pkg, src)
                            } else {
                                None::<Seq<char>>
                            }) by {
                            crate::seqs::lemma_take_step(av, j as int);
                            lemma_lookup_entry_push(av.take(j as int), av[j as int], pkg);
                        }
                        assert forall|pkg: Seq<char>|
                            #![trigger spec_lookup_entry(entries.deep_view(), pkg)]
                            spec_lookup_entry(entries.deep_view(), pkg) is Some == (
                            spec_lookup_entry(bv, pkg) is Some || spec_lookup_entry(
                                av.take(j as int + 1),
                                pkg,
                            ) is Some) by {
                            crate::seqs::lemma_take_step(av, j as int);
                            lemma_lookup_entry_push(av.take(j as int), av[j as int], pkg);
                        }
                    }
                },
                None => {
                    let e = a.clone();
                    entries.push(e);
                    proof {
                        assert(entries.deep_view() =~= cur.push(e@));
                        assert forall|pkg: Seq<char>, src: PackageSource|
                            #![trigger spec_alias_value(entries.deep_view(), pkg, src)]
                            spec_alias_value(entries.deep_view(), pkg, src) == (
                            if spec_lookup_entry(bv, pkg) is Some {
                                or_value(
                                    spec_alias_value(bv, pkg, src),
                                    spec_alias_value(av, pkg, src),
                                )
                            } else if spec_lookup_entry(av.take(j as int + 1), pkg) is Some {
                                spec_alias_value(av, pkg, src)
                            } else {
                                None::<Seq<char>>
                            }) by {
                            let prev_val = spec_alias_value(cur, pkg, src);
                            lemma_lookup_entry_push(cur, e@, pkg);
                            crate::seqs::lemma_take_step(av, j as int);
                            lemma_lookup_entry_push(av.take(j as int), av[j as int], pkg);
                            if spec_lookup_entry(cur, pkg) is None && pkg == av[j as int].name {
                                // first occurrence of this name inside `av`
                                assert(av =~= av.take(j as int) + av.skip(j as int));
                                lemma_lookup_entry_concat(av.take(j as int), av.skip(j as int), pkg);
                                assert(av.skip(j as int)[0] == av[j as int]);
                                assert(spec_lookup_entry(av.skip(j as int), pkg) == Some(
                                    av[j as int].targets,
                                ));
                            }
                        }
                        assert forall|pkg: Seq<char>|
                            #![trigger spec_lookup_entry(entries.deep_view(), pkg)]
                            spec_lookup_entry(entries.deep_view(), pkg) is Some == (
                            spec_lookup_entry(bv, pkg) is Some || spec_lookup_entry(
                                av.take(j as int + 1),
                                pkg,
                            ) is Some) by {
                            lemma_lookup_entry_push(cur, e@, pkg);
                            crate::seqs::lemma_take_step(av, j as int);
                            lemma_lookup_entry_push(av.take(j as int), av[j as int], pkg);
                        }
                    }
                },
            }
            j = j + 1;
        }
        proof {
            assert(av.take(av.len() as int) =~= av);
        }
        PackageAliases { entries }
    }
}

} // verus!
