use vstd::prelude::*;
use vstd::string::StringExecFns;
use crate::manifest::{
    default_name, lemma_entries_map_finite, refs_views, FeatureScopeDecl, ManifestMetadata,
    RefView,
};
use crate::names::{names_seq, str_eq, Names};

verus! {

/// One package of the build topology, parsed.
pub struct PackageEntry {
    pub name: String,
    pub metadata: ManifestMetadata,
}

/// The packages reachable from the build root, indexed by name.
pub struct Topology {
    pub members: Vec<PackageEntry>,
}

/// First member with the given name.
pub open spec fn topo_find(members: Seq<PackageEntry>, name: Seq<char>) -> Option<PackageEntry>
    decreases members.len(),
{
    if members.len() == 0 {
        None
    } else if members[0].name@ == name {
        Some(members[0])
    } else {
        topo_find(members.drop_first(), name)
    }
}

impl Topology {
    pub fn find<'a>(&'a self, name: &str) -> (r: Option<&'a PackageEntry>)
        ensures
            match r {
                Some(e) => topo_find(self.members@, name@) == Some(*e),
                None => topo_find(self.members@, name@) is None,
            },
    {
        proof {
            assert(self.members@.skip(0) =~= self.members@);
        }
        let mut i: usize = 0;
        while i < self.members.len()
            invariant
                i <= self.members@.len(),
                topo_find(self.members@, name@) == topo_find(
                    self.members@.skip(i as int),
                    name@,
                ),
            decreases self.members@.len() - i,
        {
            let entry = &self.members[i];
            if str_eq(entry.name.as_str(), name) {
                proof {
                    assert(self.members@.skip(i as int)[0] == self.members@[i as int]);
                    assert(topo_find(self.members@.skip(i as int), name@) == Some(
                        self.members@[i as int],
                    ));
                }
                return Some(entry);
            }
            proof {
                assert(self.members@.skip(i as int).drop_first() =~= self.members@.skip(
                    i as int + 1,
                ));
            }
            i = i + 1;
        }
        None
    }
}

/// Every name that some implication list of the table mentions.
pub open spec fn table_values(t: Map<Seq<char>, Seq<Seq<char>>>) -> Set<Seq<char>> {
    Set::new(|x: Seq<char>| exists|k: Seq<char>| t.contains_key(k) && t[k].contains(x))
}

/// Work function of transitive expansion: takes the names still pending and
/// the names already visited; the result is the visited set once nothing is
/// pending. A pending name that was already visited is dropped, which keeps
/// the walk finite on cyclic tables.
pub open spec fn expand_rec(
    table: Map<Seq<char>, Seq<Seq<char>>>,
    pending: Seq<Seq<char>>,
    visited: Set<Seq<char>>,
) -> Set<Seq<char>>
    decreases table.dom().difference(visited).len(), pending.len(),
        when table.dom().finite()
        via expand_rec_decreases
{
    if pending.len() == 0 {
        visited
    } else {
        let n = pending.last();
        let rest = pending.drop_last();
        if visited.contains(n) {
            expand_rec(table, rest, visited)
        } else if table.contains_key(n) {
            expand_rec(table, rest + table[n], visited.insert(n))
        } else {
            expand_rec(table, rest, visited.insert(n))
        }
    }
}

#[via_fn]
proof fn expand_rec_decreases(
    table: Map<Seq<char>, Seq<Seq<char>>>,
    pending: Seq<Seq<char>>,
    visited: Set<Seq<char>>,
) {
    if pending.len() > 0 {
        let n = pending.last();
        if !visited.contains(n) {
            lemma_difference_shrinks(table, pending, visited, n);
        }
    }
}

proof fn lemma_difference_shrinks(
    table: Map<Seq<char>, Seq<Seq<char>>>,
    pending: Seq<Seq<char>>,
    visited: Set<Seq<char>>,
    n: Seq<char>,
)
    requires
        table.dom().finite(),
        !visited.contains(n),
    ensures
        table.contains_key(n) ==> table.dom().difference(visited.insert(n)).len() < table.dom()
            .difference(visited).len(),
        !table.contains_key(n) ==> table.dom().difference(visited.insert(n)) == table.dom()
            .difference(visited),
{
    vstd::set::axiom_set_difference_finite(table.dom(), visited);
    if table.contains_key(n) {
        assert(table.dom().difference(visited.insert(n)) =~= table.dom().difference(
            visited,
        ).remove(n));
        assert(table.dom().difference(visited).contains(n));
        vstd::set::axiom_set_remove_len(table.dom().difference(visited), n);
    } else {
        assert(table.dom().difference(visited.insert(n)) =~= table.dom().difference(visited));
    }
}

/// Transitive expansion of one capability name against a table: the name
/// itself plus everything it transitively implies.
pub open spec fn expand(table: Map<Seq<char>, Seq<Seq<char>>>, root: Seq<char>) -> Set<Seq<char>> {
    expand_rec(table, seq![root], Set::empty())
}

/// The expansion keeps everything already visited.
pub proof fn lemma_expand_rec_super(
    table: Map<Seq<char>, Seq<Seq<char>>>,
    pending: Seq<Seq<char>>,
    visited: Set<Seq<char>>,
)
    requires
        table.dom().finite(),
    ensures
        visited.subset_of(expand_rec(table, pending, visited)),
    decreases table.dom().difference(visited).len(), pending.len(),
{
    if pending.len() > 0 {
        let n = pending.last();
        let rest = pending.drop_last();
        if visited.contains(n) {
            lemma_expand_rec_super(table, rest, visited);
        } else {
            lemma_difference_shrinks(table, pending, visited, n);
            if table.contains_key(n) {
                lemma_expand_rec_super(table, rest + table[n], visited.insert(n));
            } else {
                lemma_expand_rec_super(table, rest, visited.insert(n));
            }
        }
    }
}

/// The expansion adds nothing beyond the pending names and the names that
/// implication lists mention.
pub proof fn lemma_expand_rec_bound(
    table: Map<Seq<char>, Seq<Seq<char>>>,
    pending: Seq<Seq<char>>,
    visited: Set<Seq<char>>,
)
    requires
        table.dom().finite(),
    ensures
        expand_rec(table, pending, visited).subset_of(
            visited.union(pending.to_set()).union(table_values(table)),
        ),
    decreases table.dom().difference(visited).len(), pending.len(),
{
    if pending.len() > 0 {
        let n = pending.last();
        let rest = pending.drop_last();
        assert forall|x: Seq<char>| rest.to_set().contains(x) implies pending.to_set().contains(
            x,
        ) by {
            let j = choose|j: int| 0 <= j < rest.len() && rest[j] == x;
            assert(pending[j] == x);
        }
        assert(pending.to_set().contains(n));
        if visited.contains(n) {
            lemma_expand_rec_bound(table, rest, visited);
        } else {
            lemma_difference_shrinks(table, pending, visited, n);
            if table.contains_key(n) {
                lemma_expand_rec_bound(table, rest + table[n], visited.insert(n));
                assert forall|x: Seq<char>| (rest + table[n]).to_set().contains(x) implies
                    pending.to_set().contains(x) || table_values(table).contains(x) by {
                    let j = choose|j: int| 0 <= j < (rest + table[n]).len() && (rest + table[n])[j]
                        == x;
                    if j < rest.len() {
                        assert(pending[j] == x);
                    } else {
                        assert(table[n][j - rest.len()] == x);
                        assert(table[n].contains(x));
                    }
                }
            } else {
                lemma_expand_rec_bound(table, rest, visited.insert(n));
            }
        }
    }
}

/// Transitive expansion, executable: adds `feature` and everything it
/// transitively implies in `table` to `enabled`. A name already in `enabled`
/// is not expanded again, which both guards against cyclic implication
/// chains and makes the walk terminate.
pub fn resolve_feature_dependencies(feature: &str, table: &FeatureScopeDecl, enabled: &mut Names)
    requires
        old(enabled).wf(),
    ensures
        final(enabled)@ == expand_rec(table@, seq![feature@], old(enabled)@),
        final(enabled).wf(),
{
    proof {
        lemma_entries_map_finite(table.features@);
    }
    let mut pending: Vec<String> = Vec::new();
    pending.push(<String as StringExecFns>::from_str(feature));
    proof {
        assert(names_seq(pending@) =~= seq![feature@]);
    }
    while pending.len() > 0
        invariant
            table@.dom().finite(),
            enabled.wf(),
            expand_rec(table@, names_seq(pending@), enabled@) == expand_rec(
                table@,
                seq![feature@],
                old(enabled)@,
            ),
        decreases table@.dom().difference(enabled@).len(), pending@.len(),
    {
        let ghost pnames = names_seq(pending@);
        let name = pending.pop().unwrap();
        proof {
            assert(pnames.last() == name@);
            assert(names_seq(pending@) =~= pnames.drop_last());
        }
        if enabled.contains(name.as_str()) {
            proof {
                assert(expand_rec(table@, pnames, enabled@) == expand_rec(
                    table@,
                    pnames.drop_last(),
                    enabled@,
                ));
            }
        } else {
            let ghost prev = enabled@;
            enabled.insert(name.as_str());
            proof {
                lemma_difference_shrinks(table@, pnames, prev, name@);
            }
            match table.get(name.as_str()) {
                Some(deps) => {
                    let ghost rest = names_seq(pending@);
                    let mut j: usize = 0;
                    while j < deps.len()
                        invariant
                            j <= deps@.len(),
                            names_seq(pending@) =~= rest + names_seq(deps@).take(j as int),
                        decreases deps@.len() - j,
                    {
                        let ghost before = pending@;
                        pending.push(deps[j].clone());
                        proof {
                            names_seq(deps@).lemma_take_succ_push(j as int);
                            assert(pending@ == before.push(deps@[j as int]));
                            assert(names_seq(pending@) =~= names_seq(before).push(
                                names_seq(deps@)[j as int],
                            ));
                            assert(rest + names_seq(deps@).take(j as int + 1) =~= (rest
                                + names_seq(deps@).take(j as int)).push(
                                names_seq(deps@)[j as int],
                            ));
                            assert(names_seq(pending@) =~= rest + names_seq(deps@).take(
                                j as int + 1,
                            ));
                        }
                        j = j + 1;
                    }
                    proof {
                        assert(names_seq(deps@).take(names_seq(deps@).len() as int) =~= names_seq(
                            deps@,
                        ));
                        assert(names_seq(pending@) =~= pnames.drop_last() + table@[name@]);
                        assert(expand_rec(table@, pnames, prev) == expand_rec(
                            table@,
                            pnames.drop_last() + table@[name@],
                            prev.insert(name@),
                        ));
                    }
                },
                None => {
                    proof {
                        assert(expand_rec(table@, pnames, prev) == expand_rec(
                            table@,
                            pnames.drop_last(),
                            prev.insert(name@),
                        ));
                    }
                },
            }
        }
    }
    proof {
        assert(names_seq(pending@) =~= Seq::<Seq<char>>::empty());
        assert(expand_rec(table@, names_seq(pending@), enabled@) == enabled@);
    }
}

/// Every pending name ends up in the expansion.
pub proof fn lemma_expand_rec_pending(
    table: Map<Seq<char>, Seq<Seq<char>>>,
    pending: Seq<Seq<char>>,
    visited: Set<Seq<char>>,
)
    requires
        table.dom().finite(),
    ensures
        pending.to_set().subset_of(expand_rec(table, pending, visited)),
    decreases table.dom().difference(visited).len(), pending.len(),
{
    if pending.len() > 0 {
        let n = pending.last();
        let rest = pending.drop_last();
        assert forall|x: Seq<char>| pending.to_set().contains(x) implies rest.to_set().contains(x)
            || x == n by {
            let j = choose|j: int| 0 <= j < pending.len() && pending[j] == x;
            if j < rest.len() {
                assert(rest[j] == x);
            }
        }
        if visited.contains(n) {
            lemma_expand_rec_pending(table, rest, visited);
            lemma_expand_rec_super(table, rest, visited);
        } else {
            lemma_difference_shrinks(table, pending, visited, n);
            if table.contains_key(n) {
                lemma_expand_rec_pending(table, rest + table[n], visited.insert(n));
                lemma_expand_rec_super(table, rest + table[n], visited.insert(n));
                assert forall|x: Seq<char>| rest.to_set().contains(x) implies (rest
                    + table[n]).to_set().contains(x) by {
                    let j = choose|j: int| 0 <= j < rest.len() && rest[j] == x;
                    assert((rest + table[n])[j] == x);
                }
            } else {
                lemma_expand_rec_pending(table, rest, visited.insert(n));
                lemma_expand_rec_super(table, rest, visited.insert(n));
            }
        }
    }
}

/// The expansion holds its root.
pub proof fn lemma_expand_contains_root(table: Map<Seq<char>, Seq<Seq<char>>>, root: Seq<char>)
    requires
        table.dom().finite(),
    ensures
        expand(table, root).contains(root),
{
    lemma_expand_rec_pending(table, seq![root], Set::empty());
    assert(seq![root].to_set().contains(root));
}

/// Whatever the expansion reaches is closed under implication: a reached
/// name that the table declares has all its implied names reached too.
pub proof fn lemma_expand_rec_closed(
    table: Map<Seq<char>, Seq<Seq<char>>>,
    pending: Seq<Seq<char>>,
    visited: Set<Seq<char>>,
)
    requires
        table.dom().finite(),
    ensures
        forall|x: Seq<char>|
            expand_rec(table, pending, visited).contains(x) && !visited.contains(x)
                && table.contains_key(x) ==> table[x].to_set().subset_of(
                expand_rec(table, pending, visited),
            ),
    decreases table.dom().difference(visited).len(), pending.len(),
{
    let result = expand_rec(table, pending, visited);
    if pending.len() > 0 {
        let n = pending.last();
        let rest = pending.drop_last();
        if visited.contains(n) {
            lemma_expand_rec_closed(table, rest, visited);
        } else {
            lemma_difference_shrinks(table, pending, visited, n);
            if table.contains_key(n) {
                lemma_expand_rec_closed(table, rest + table[n], visited.insert(n));
                lemma_expand_rec_pending(table, rest + table[n], visited.insert(n));
                assert forall|x: Seq<char>| table[n].to_set().contains(x) implies (rest
                    + table[n]).to_set().contains(x) by {
                    let j = choose|j: int| 0 <= j < table[n].len() && table[n][j] == x;
                    assert((rest + table[n])[rest.len() + j] == x);
                }
                assert forall|x: Seq<char>|
                    result.contains(x) && !visited.contains(x) && table.contains_key(
                        x,
                    ) implies table[x].to_set().subset_of(result) by {
                    if x == n {
                        assert(table[n].to_set().subset_of(
                            (rest + table[n]).to_set(),
                        ));
                        assert((rest + table[n]).to_set().subset_of(result));
                    } else {
                        assert(!visited.insert(n).contains(x));
                    }
                }
            } else {
                lemma_expand_rec_closed(table, rest, visited.insert(n));
                assert forall|x: Seq<char>|
                    result.contains(x) && !visited.contains(x) && table.contains_key(
                        x,
                    ) implies table[x].to_set().subset_of(result) by {
                    assert(x != n);
                    assert(!visited.insert(n).contains(x));
                }
            }
        }
    }
}

/// Law: the expansion of a capability holds the capability itself and is
/// closed under the table's implication lists, and it never terminates with
/// anything outside the root and the implied names — so a cyclic table
/// expands to exactly its reachable names.
pub proof fn lemma_expand_closed(table: Map<Seq<char>, Seq<Seq<char>>>, root: Seq<char>)
    requires
        table.dom().finite(),
    ensures
        expand(table, root).contains(root),
        forall|x: Seq<char>|
            expand(table, root).contains(x) && table.contains_key(x) ==> table[x].to_set()
                .subset_of(expand(table, root)),
        expand(table, root).subset_of(
            Set::empty().insert(root).union(table_values(table)),
        ),
{
    lemma_expand_contains_root(table, root);
    lemma_expand_rec_closed(table, seq![root], Set::empty());
    lemma_expand_rec_bound(table, seq![root], Set::empty());
    assert(seq![root].to_set() =~= Set::empty().insert(root));
    assert(Set::<Seq<char>>::empty().union(seq![root].to_set()).union(table_values(table)) =~= Set::empty().insert(
        root,
    ).union(table_values(table)));
}

/// A recoverable condition met while resolving; reported, never fatal.
#[derive(Debug)]
pub enum ResolveWarning {
    ReferencedPackageNotFound { package: String },
    ReferencedPackageHasNoDeclarations { package: String },
    UnknownCapability { package: String, capability: String },
}

/// Mathematical view of a warning.
pub ghost enum WarningView {
    NotFound(Seq<char>),
    NoDecl(Seq<char>),
    Unknown(Seq<char>, Seq<char>),
}

impl View for ResolveWarning {
    type V = WarningView;

    open spec fn view(&self) -> WarningView {
        match self {
            ResolveWarning::ReferencedPackageNotFound { package } => WarningView::NotFound(
                package@,
            ),
            ResolveWarning::ReferencedPackageHasNoDeclarations { package } => WarningView::NoDecl(
                package@,
            ),
            ResolveWarning::UnknownCapability { package, capability } => WarningView::Unknown(
                package@,
                capability@,
            ),
        }
    }
}

pub open spec fn warnings_views(s: Seq<ResolveWarning>) -> Seq<WarningView> {
    s.map_values(|w: ResolveWarning| w@)
}

/// Capabilities activated by the requested names of one reference: the union
/// of the expansions of the requested names that the table declares; names it
/// does not declare contribute nothing.
pub open spec fn requested_set(dm: Map<Seq<char>, Seq<Seq<char>>>, feats: Seq<Seq<char>>) -> Set<
    Seq<char>,
>
    decreases feats.len(),
{
    if feats.len() == 0 {
        Set::empty()
    } else {
        requested_set(dm, feats.drop_last()).union(
            if dm.contains_key(feats.last()) {
                expand(dm, feats.last())
            } else {
                Set::empty()
            },
        )
    }
}

/// Capabilities that one reference activates.
pub open spec fn ref_set(members: Seq<PackageEntry>, r: RefView) -> Set<Seq<char>> {
    match topo_find(members, r.package) {
        None => Set::empty(),
        Some(e) => match e.metadata.feature_scope_decl {
            None => Set::empty(),
            Some(d) => if r.features.len() == 0 {
                if r.default_enabled {
                    expand(d@, default_name())
                } else {
                    Set::empty()
                }
            } else {
                requested_set(d@, r.features)
            },
        },
    }
}

/// Capabilities that a list of references activates.
pub open spec fn refs_set(members: Seq<PackageEntry>, refs: Seq<RefView>) -> Set<Seq<char>>
    decreases refs.len(),
{
    if refs.len() == 0 {
        Set::empty()
    } else {
        refs_set(members, refs.drop_last()).union(ref_set(members, refs.last()))
    }
}

/// Whether no reference asks for a concrete capability.
pub open spec fn no_concrete_ask(refs: Seq<RefView>) -> bool {
    forall|i: int| 0 <= i < refs.len() ==> refs[i].features.len() == 0
}

/// The target's own default expansion; empty when it declares no table.
pub open spec fn own_default_set(decl: Option<FeatureScopeDecl>) -> Set<Seq<char>> {
    match decl {
        None => Set::empty(),
        Some(d) => expand(d@, default_name()),
    }
}

/// The activated set of a resolution: what the references contribute, plus
/// the target's own default expansion when no reference asked for a concrete
/// capability.
pub open spec fn activated_spec(md: ManifestMetadata, members: Seq<PackageEntry>) -> Set<
    Seq<char>,
> {
    refs_set(members, refs_views(md.feature_scope_refs@)).union(
        if no_concrete_ask(refs_views(md.feature_scope_refs@)) {
            own_default_set(md.feature_scope_decl)
        } else {
            Set::empty()
        },
    )
}

/// Every name that the implication lists of the entries mention.
pub open spec fn values_of_entries(es: Seq<(String, Vec<String>)>) -> Set<Seq<char>>
    decreases es.len(),
{
    if es.len() == 0 {
        Set::empty()
    } else {
        values_of_entries(es.drop_last()).union(names_seq(es.last().1@).to_set())
    }
}

/// Every capability name of the entries: keys and implication-list members.
pub open spec fn entry_names_of(es: Seq<(String, Vec<String>)>) -> Set<Seq<char>>
    decreases es.len(),
{
    if es.len() == 0 {
        Set::empty()
    } else {
        entry_names_of(es.drop_last()).insert(es.last().0@).union(
            names_seq(es.last().1@).to_set(),
        )
    }
}

/// Vocabulary contribution of the target's own table: its implied names.
pub open spec fn own_vocab(decl: Option<FeatureScopeDecl>) -> Set<Seq<char>> {
    match decl {
        None => Set::empty(),
        Some(d) => values_of_entries(d.features@),
    }
}

/// Vocabulary contribution of one reference: every capability name of the
/// producer's table, when the producer and its table exist.
pub open spec fn ref_vocab(members: Seq<PackageEntry>, r: RefView) -> Set<Seq<char>> {
    match topo_find(members, r.package) {
        None => Set::empty(),
        Some(e) => match e.metadata.feature_scope_decl {
            None => Set::empty(),
            Some(d) => entry_names_of(d.features@),
        },
    }
}

pub open spec fn refs_vocab(members: Seq<PackageEntry>, refs: Seq<RefView>) -> Set<Seq<char>>
    decreases refs.len(),
{
    if refs.len() == 0 {
        Set::empty()
    } else {
        refs_vocab(members, refs.drop_last()).union(ref_vocab(members, refs.last()))
    }
}

/// The vocabulary of a resolution: `default`, the names the target's own
/// table implies, and every capability name of each referenced producer.
pub open spec fn vocabulary_spec(md: ManifestMetadata, members: Seq<PackageEntry>) -> Set<
    Seq<char>,
> {
    Set::empty().insert(default_name()).union(own_vocab(md.feature_scope_decl)).union(
        refs_vocab(members, refs_views(md.feature_scope_refs@)),
    )
}

/// One warning per requested name that the producer does not declare, in
/// request order.
pub open spec fn unknown_warnings(
    dm: Map<Seq<char>, Seq<Seq<char>>>,
    pkg: Seq<char>,
    feats: Seq<Seq<char>>,
) -> Seq<WarningView>
    decreases feats.len(),
{
    if feats.len() == 0 {
        Seq::empty()
    } else {
        unknown_warnings(dm, pkg, feats.drop_last()) + (
        if dm.contains_key(feats.last()) {
            Seq::empty()
        } else {
            seq![WarningView::Unknown(pkg, feats.last())]
        })
    }
}

/// The warnings that one reference raises.
pub open spec fn ref_warnings(members: Seq<PackageEntry>, r: RefView) -> Seq<WarningView> {
    match topo_find(members, r.package) {
        None => seq![WarningView::NotFound(r.package)],
        Some(e) => match e.metadata.feature_scope_decl {
            None => seq![WarningView::NoDecl(r.package)],
            Some(d) => if r.features.len() == 0 {
                Seq::empty()
            } else {
                unknown_warnings(d@, r.package, r.features)
            },
        },
    }
}

pub open spec fn refs_warnings(members: Seq<PackageEntry>, refs: Seq<RefView>) -> Seq<WarningView>
    decreases refs.len(),
{
    if refs.len() == 0 {
        Seq::empty()
    } else {
        refs_warnings(members, refs.drop_last()) + ref_warnings(members, refs.last())
    }
}

/// Fatal error of resolution.
#[derive(Debug)]
pub enum ResolveError {
    PackageNotFound,
}

/// What resolution decides for a target package.
pub struct ResolutionResult {
    pub activated: Names,
    pub vocabulary: Names,
}

/// The resolution result together with the recoverable conditions met.
pub struct ResolutionOutcome {
    pub result: ResolutionResult,
    pub warnings: Vec<ResolveWarning>,
}

/// Adds every name that the implication lists of `d` mention.
fn insert_decl_values(vocab: &mut Names, d: &FeatureScopeDecl)
    requires
        old(vocab).wf(),
    ensures
        final(vocab)@ == old(vocab)@.union(values_of_entries(d.features@)),
        final(vocab).wf(),
{
    proof {
        assert(d.features@.take(0) =~= Seq::<(String, Vec<String>)>::empty());
        assert(vocab@ =~= old(vocab)@.union(values_of_entries(d.features@.take(0))));
    }
    let mut i: usize = 0;
    while i < d.features.len()
        invariant
            i <= d.features@.len(),
            vocab.wf(),
            vocab@ == old(vocab)@.union(values_of_entries(d.features@.take(i as int))),
        decreases d.features@.len() - i,
    {
        vocab.insert_list(&d.features[i].1);
        proof {
            d.features@.lemma_take_succ_push(i as int);
            assert(d.features@.take(i as int + 1).drop_last() =~= d.features@.take(i as int));
            assert(d.features@.take(i as int + 1).last() == d.features@[i as int]);
            assert(vocab@ =~= old(vocab)@.union(
                values_of_entries(d.features@.take(i as int + 1)),
            ));
        }
        i = i + 1;
    }
    proof {
        assert(d.features@.take(d.features@.len() as int) =~= d.features@);
    }
}

/// Adds every capability name of `d`: keys and implication-list members.
fn insert_entry_names(vocab: &mut Names, d: &FeatureScopeDecl)
    requires
        old(vocab).wf(),
    ensures
        final(vocab)@ == old(vocab)@.union(entry_names_of(d.features@)),
        final(vocab).wf(),
{
    proof {
        assert(d.features@.take(0) =~= Seq::<(String, Vec<String>)>::empty());
        assert(vocab@ =~= old(vocab)@.union(entry_names_of(d.features@.take(0))));
    }
    let mut i: usize = 0;
    while i < d.features.len()
        invariant
            i <= d.features@.len(),
            vocab.wf(),
            vocab@ == old(vocab)@.union(entry_names_of(d.features@.take(i as int))),
        decreases d.features@.len() - i,
    {
        let pair = &d.features[i];
        vocab.insert(pair.0.as_str());
        vocab.insert_list(&pair.1);
        proof {
            d.features@.lemma_take_succ_push(i as int);
            assert(d.features@.take(i as int + 1).drop_last() =~= d.features@.take(i as int));
            assert(d.features@.take(i as int + 1).last() == d.features@[i as int]);
            assert(vocab@ =~= old(vocab)@.union(entry_names_of(d.features@.take(i as int + 1))));
        }
        i = i + 1;
    }
    proof {
        assert(d.features@.take(d.features@.len() as int) =~= d.features@);
    }
}

/// Resolves the named target package against the topology: computes the
/// activated capability set, the full symbol vocabulary, and the recoverable
/// conditions met on the way. Fails only when the target itself is not a
/// member of the topology.
pub fn resolve(target: &str, topology: &Topology) -> (r: Result<ResolutionOutcome, ResolveError>)
    ensures
        match r {
            Ok(out) => topo_find(topology.members@, target@) matches Some(e) && ({
                &&& out.result.activated@ == activated_spec(e.metadata, topology.members@)
                &&& out.result.vocabulary@ == vocabulary_spec(e.metadata, topology.members@)
                &&& warnings_views(out.warnings@) == refs_warnings(
                    topology.members@,
                    refs_views(e.metadata.feature_scope_refs@),
                )
                &&& out.result.activated.wf()
                &&& out.result.vocabulary.wf()
            }),
            Err(_) => topo_find(topology.members@, target@) is None,
        },
{
    let entry = match topology.find(target) {
        None => {
            return Err(ResolveError::PackageNotFound);
        },
        Some(e) => e,
    };
    let md = &entry.metadata;
    let ghost members = topology.members@;
    let ghost rv = refs_views(md.feature_scope_refs@);
    let mut activated = Names::new();
    let mut vocabulary = Names::new();
    let mut warnings: Vec<ResolveWarning> = Vec::new();
    vocabulary.insert("default");
    match &md.feature_scope_decl {
        Some(d) => {
            insert_decl_values(&mut vocabulary, d);
        },
        None => {},
    }
    let ghost base_vocab = vocabulary@;
    proof {
        assert(base_vocab =~= Set::empty().insert(default_name()).union(
            own_vocab(md.feature_scope_decl),
        ));
        assert(rv.take(0) =~= Seq::<RefView>::empty());
        assert(activated@ =~= refs_set(members, rv.take(0)));
        assert(vocabulary@ =~= base_vocab.union(refs_vocab(members, rv.take(0))));
        assert(warnings_views(warnings@) =~= refs_warnings(members, rv.take(0)));
    }
    let mut all_empty = true;
    let refs = &md.feature_scope_refs;
    let mut i: usize = 0;
    while i < refs.len()
        invariant
            i <= refs@.len(),
            rv == refs_views(refs@),
            activated.wf(),
            vocabulary.wf(),
            activated@ == refs_set(members, rv.take(i as int)),
            vocabulary@ == base_vocab.union(refs_vocab(members, rv.take(i as int))),
            warnings_views(warnings@) == refs_warnings(members, rv.take(i as int)),
            all_empty == no_concrete_ask(rv.take(i as int)),
            members == topology.members@,
        decreases refs@.len() - i,
    {
        let r = &refs[i];
        proof {
            assert(rv[i as int] == refs@[i as int]@);
        }
        if r.features.len() > 0 {
            all_empty = false;
        }
        let ghost act_prev = activated@;
        let ghost voc_prev = vocabulary@;
        let ghost warn_prev = warnings_views(warnings@);
        match topology.find(r.package.as_str()) {
            None => {
                let w = ResolveWarning::ReferencedPackageNotFound { package: r.package.clone() };
                warnings.push(w);
                proof {
                    assert(topo_find(members, rv[i as int].package) is None);
                    assert(ref_set(members, rv[i as int]) =~= Set::<Seq<char>>::empty());
                    assert(ref_vocab(members, rv[i as int]) =~= Set::<Seq<char>>::empty());
                    assert(ref_warnings(members, rv[i as int]) == seq![
                        WarningView::NotFound(rv[i as int].package),
                    ]);
                    assert(warnings_views(warnings@) =~= warn_prev.push(
                        WarningView::NotFound(rv[i as int].package),
                    ));
                }
            },
            Some(producer) => {
                match &producer.metadata.feature_scope_decl {
                    None => {
                        let w = ResolveWarning::ReferencedPackageHasNoDeclarations {
                            package: r.package.clone(),
                        };
                        warnings.push(w);
                        proof {
                            assert(topo_find(members, rv[i as int].package) == Some(*producer));
                            assert(ref_set(members, rv[i as int]) =~= Set::<Seq<char>>::empty());
                            assert(ref_vocab(members, rv[i as int]) =~= Set::<Seq<char>>::empty());
                            assert(ref_warnings(members, rv[i as int]) == seq![
                                WarningView::NoDecl(rv[i as int].package),
                            ]);
                            assert(warnings_views(warnings@) =~= warn_prev.push(
                                WarningView::NoDecl(rv[i as int].package),
                            ));
                        }
                    },
                    Some(d) => {
                        proof {
                            assert(topo_find(members, rv[i as int].package) == Some(*producer));
                            assert(producer.metadata.feature_scope_decl == Some(*d));
                        }
                        insert_entry_names(&mut vocabulary, d);
                        if r.features.len() == 0 {
                            if r.default_enabled {
                                let mut tmp = Names::new();
                                resolve_feature_dependencies("default", d, &mut tmp);
                                activated.insert_all(&tmp);
                                proof {
                                    assert(tmp@ == expand(d@, default_name()));
                                    assert(ref_set(members, rv[i as int]) == expand(
                                        d@,
                                        default_name(),
                                    ));
                                }
                            } else {
                                proof {
                                    assert(ref_set(members, rv[i as int]) =~= Set::<
                                        Seq<char>,
                                    >::empty());
                                }
                            }
                            proof {
                                assert(ref_warnings(members, rv[i as int]) =~= Seq::<
                                    WarningView,
                                >::empty());
                            }
                        } else {
                            let ghost feats = rv[i as int].features;
                            let ghost pkg = rv[i as int].package;
                            let ghost act_base = activated@;
                            let ghost warn_base = warnings_views(warnings@);
                            proof {
                                assert(feats == names_seq(r.features@));
                                assert(pkg == r.package@);
                                assert(feats.take(0) =~= Seq::<Seq<char>>::empty());
                                assert(activated@ =~= act_base.union(
                                    requested_set(d@, feats.take(0)),
                                ));
                                assert(warnings_views(warnings@) =~= warn_base + unknown_warnings(
                                    d@,
                                    rv[i as int].package,
                                    feats.take(0),
                                ));
                            }
                            let mut k: usize = 0;
                            while k < r.features.len()
                                invariant
                                    k <= r.features@.len(),
                                    feats == names_seq(r.features@),
                                    pkg == r.package@,
                                    activated.wf(),
                                    activated@ == act_base.union(
                                        requested_set(d@, feats.take(k as int)),
                                    ),
                                    warnings_views(warnings@) == warn_base + unknown_warnings(
                                        d@,
                                        pkg,
                                        feats.take(k as int),
                                    ),
                                decreases r.features@.len() - k,
                            {
                                let f = &r.features[k];
                                proof {
                                    assert(feats[k as int] == f@);
                                    feats.lemma_take_succ_push(k as int);
                                    assert(feats.take(k as int + 1).drop_last() =~= feats.take(
                                        k as int,
                                    ));
                                }
                                let ghost warn_in = warnings_views(warnings@);
                                if d.contains_key(f.as_str()) {
                                    let mut tmp = Names::new();
                                    resolve_feature_dependencies(f.as_str(), d, &mut tmp);
                                    activated.insert_all(&tmp);
                                    proof {
                                        assert(tmp@ == expand(d@, feats[k as int]));
                                        assert(activated@ =~= act_base.union(
                                            requested_set(d@, feats.take(k as int + 1)),
                                        ));
                                        assert(unknown_warnings(
                                            d@,
                                            pkg,
                                            feats.take(k as int + 1),
                                        ) =~= unknown_warnings(
                                            d@,
                                            pkg,
                                            feats.take(k as int),
                                        ));
                                    }
                                } else {
                                    let w = ResolveWarning::UnknownCapability {
                                        package: r.package.clone(),
                                        capability: f.clone(),
                                    };
                                    warnings.push(w);
                                    proof {
                                        assert(warnings_views(warnings@) =~= warn_in.push(
                                            WarningView::Unknown(
                                                pkg,
                                                feats[k as int],
                                            ),
                                        ));
                                        assert(unknown_warnings(
                                            d@,
                                            pkg,
                                            feats.take(k as int + 1),
                                        ) =~= unknown_warnings(
                                            d@,
                                            pkg,
                                            feats.take(k as int),
                                        ).push(
                                            WarningView::Unknown(
                                                pkg,
                                                feats[k as int],
                                            ),
                                        ));
                                        assert(activated@ =~= act_base.union(
                                            requested_set(d@, feats.take(k as int + 1)),
                                        ));
                                    }
                                }
                                k = k + 1;
                            }
                            proof {
                                assert(feats.take(feats.len() as int) =~= feats);
                                assert(pkg == rv[i as int].package);
                                assert(ref_set(members, rv[i as int]) == requested_set(d@, feats));
                                assert(ref_warnings(members, rv[i as int]) == unknown_warnings(
                                    d@,
                                    rv[i as int].package,
                                    feats,
                                ));
                            }
                        }
                    },
                }
            },
        }
        proof {
            rv.lemma_take_succ_push(i as int);
            assert(rv.take(i as int + 1).drop_last() =~= rv.take(i as int));
            assert(rv.take(i as int + 1).last() == rv[i as int]);
            assert(activated@ =~= refs_set(members, rv.take(i as int + 1)));
            assert(vocabulary@ =~= base_vocab.union(refs_vocab(members, rv.take(i as int + 1))));
            assert(warnings_views(warnings@) =~= refs_warnings(members, rv.take(i as int + 1)));
            if rv[i as int].features.len() == 0 {
                if no_concrete_ask(rv.take(i as int)) {
                    assert(no_concrete_ask(rv.take(i as int + 1)));
                } else {
                    let q = choose|q: int|
                        0 <= q < rv.take(i as int).len() && rv.take(i as int)[q].features.len()
                            != 0;
                    assert(rv.take(i as int + 1)[q].features.len() != 0);
                    assert(!no_concrete_ask(rv.take(i as int + 1)));
                }
            } else {
                assert(rv.take(i as int + 1)[i as int].features.len() != 0);
                assert(!no_concrete_ask(rv.take(i as int + 1)));
            }
        }
        i = i + 1;
    }
    proof {
        assert(rv.take(rv.len() as int) =~= rv);
    }
    if all_empty {
        match &md.feature_scope_decl {
            Some(d) => {
                let mut tmp = Names::new();
                resolve_feature_dependencies("default", d, &mut tmp);
                activated.insert_all(&tmp);
                proof {
                    assert(tmp@ == expand(d@, default_name()));
                    assert(own_default_set(md.feature_scope_decl) == expand(d@, default_name()));
                }
            },
            None => {
                proof {
                    assert(own_default_set(md.feature_scope_decl) =~= Set::<Seq<char>>::empty());
                    assert(activated@ =~= activated@.union(own_default_set(
                        md.feature_scope_decl,
                    )));
                }
            },
        }
    }
    proof {
        assert(activated@ =~= activated_spec(entry.metadata, members));
        assert(vocabulary@ =~= vocabulary_spec(entry.metadata, members));
    }
    Ok(ResolutionOutcome { result: ResolutionResult { activated, vocabulary }, warnings })
}

/// Resolution of a package that has no enclosing workspace: by construction
/// the topology holds exactly the package itself, so the result is stated —
/// and so guaranteed — to agree with `resolve` on that one-member topology.
pub fn resolve_standalone(entry: PackageEntry) -> (out: ResolutionOutcome)
    ensures
        out.result.activated@ == activated_spec(entry.metadata, seq![entry]),
        out.result.vocabulary@ == vocabulary_spec(entry.metadata, seq![entry]),
        warnings_views(out.warnings@) == refs_warnings(
            seq![entry],
            refs_views(entry.metadata.feature_scope_refs@),
        ),
        out.result.activated.wf(),
        out.result.vocabulary.wf(),
{
    let ghost e = entry;
    let name = entry.name.clone();
    let mut members: Vec<PackageEntry> = Vec::new();
    members.push(entry);
    let topology = Topology { members };
    proof {
        assert(topology.members@ =~= seq![e]);
        assert(topo_find(topology.members@, e.name@) == Some(e));
    }
    match resolve(name.as_str(), &topology) {
        Ok(out) => out,
        Err(_) => vstd::pervasive::unreached(),
    }
}

proof fn lemma_values_subset_names(es: Seq<(String, Vec<String>)>)
    ensures
        values_of_entries(es).subset_of(entry_names_of(es)),
    decreases es.len(),
{
    if es.len() > 0 {
        lemma_values_subset_names(es.drop_last());
    }
}

proof fn lemma_key_in_entry_names(es: Seq<(String, Vec<String>)>, j: int)
    requires
        0 <= j < es.len(),
    ensures
        entry_names_of(es).contains(es[j].0@),
    decreases es.len(),
{
    if j == es.len() - 1 {
    } else {
        assert(es.drop_last()[j] == es[j]);
        lemma_key_in_entry_names(es.drop_last(), j);
    }
}

proof fn lemma_value_in_entry_names(es: Seq<(String, Vec<String>)>, j: int, x: Seq<char>)
    requires
        0 <= j < es.len(),
        names_seq(es[j].1@).contains(x),
    ensures
        values_of_entries(es).contains(x),
    decreases es.len(),
{
    if j == es.len() - 1 {
        assert(names_seq(es.last().1@).to_set().contains(x));
    } else {
        assert(es.drop_last()[j] == es[j]);
        lemma_value_in_entry_names(es.drop_last(), j, x);
    }
}

/// Every name in the range of the entry map is an implied name of some entry.
proof fn lemma_table_values_subset(es: Seq<(String, Vec<String>)>)
    ensures
        table_values(crate::manifest::entries_map(es)).subset_of(values_of_entries(es)),
{
    assert forall|x: Seq<char>|
        table_values(crate::manifest::entries_map(es)).contains(x) implies values_of_entries(
        es,
    ).contains(x) by {
        let k = choose|k: Seq<char>|
            crate::manifest::entries_map(es).contains_key(k) && crate::manifest::entries_map(
                es,
            )[k].contains(x);
        lemma_table_value_witness(es, k, x);
    }
}

proof fn lemma_table_value_witness(es: Seq<(String, Vec<String>)>, k: Seq<char>, x: Seq<char>)
    requires
        crate::manifest::entries_map(es).contains_key(k),
        crate::manifest::entries_map(es)[k].contains(x),
    ensures
        values_of_entries(es).contains(x),
    decreases es.len(),
{
    if es.len() > 0 {
        let m = crate::manifest::entries_map(es.drop_last());
        if m.contains_key(k) {
            lemma_table_value_witness(es.drop_last(), k, x);
        } else if es.last().0@ == k {
            assert(names_seq(es.last().1@).to_set().contains(x));
        } else {
            lemma_table_value_witness(es.drop_last(), k, x);
        }
    }
}

proof fn lemma_dom_subset_names(es: Seq<(String, Vec<String>)>, k: Seq<char>)
    requires
        crate::manifest::entries_map(es).contains_key(k),
    ensures
        entry_names_of(es).contains(k),
{
    crate::manifest::lemma_entries_map_key(es, k);
    let j = choose|j: int| 0 <= j < es.len() && es[j].0@ == k;
    lemma_key_in_entry_names(es, j);
}

proof fn lemma_requested_in_names(es: Seq<(String, Vec<String>)>, feats: Seq<Seq<char>>)
    ensures
        requested_set(crate::manifest::entries_map(es), feats).subset_of(entry_names_of(es)),
    decreases feats.len(),
{
    let dm = crate::manifest::entries_map(es);
    crate::manifest::lemma_entries_map_finite(es);
    if feats.len() > 0 {
        lemma_requested_in_names(es, feats.drop_last());
        if dm.contains_key(feats.last()) {
            lemma_expand_closed(dm, feats.last());
            lemma_table_values_subset(es);
            lemma_values_subset_names(es);
            lemma_dom_subset_names(es, feats.last());
        }
    }
}

proof fn lemma_ref_set_in_vocab(members: Seq<PackageEntry>, r: RefView)
    ensures
        ref_set(members, r).subset_of(ref_vocab(members, r).insert(default_name())),
{
    match topo_find(members, r.package) {
        None => {},
        Some(e) => match e.metadata.feature_scope_decl {
            None => {},
            Some(d) => {
                crate::manifest::lemma_entries_map_finite(d.features@);
                if r.features.len() == 0 {
                    if r.default_enabled {
                        lemma_expand_closed(d@, default_name());
                        lemma_table_values_subset(d.features@);
                        lemma_values_subset_names(d.features@);
                    }
                } else {
                    lemma_requested_in_names(d.features@, r.features);
                }
            },
        },
    }
}

proof fn lemma_refs_set_in_vocab(members: Seq<PackageEntry>, refs: Seq<RefView>)
    ensures
        refs_set(members, refs).subset_of(refs_vocab(members, refs).insert(default_name())),
    decreases refs.len(),
{
    if refs.len() > 0 {
        lemma_refs_set_in_vocab(members, refs.drop_last());
        lemma_ref_set_in_vocab(members, refs.last());
    }
}

/// Law: for every package and topology, what resolution activates lies
/// within the vocabulary it reports, and `default` is always in the
/// vocabulary.
pub proof fn lemma_vocabulary_superset(md: ManifestMetadata, members: Seq<PackageEntry>)
    ensures
        activated_spec(md, members).subset_of(vocabulary_spec(md, members)),
        vocabulary_spec(md, members).contains(default_name()),
{
    let rv = refs_views(md.feature_scope_refs@);
    lemma_refs_set_in_vocab(members, rv);
    if no_concrete_ask(rv) {
        match md.feature_scope_decl {
            None => {},
            Some(d) => {
                crate::manifest::lemma_entries_map_finite(d.features@);
                lemma_expand_closed(d@, default_name());
                lemma_table_values_subset(d.features@);
            },
        }
    }
}

/// Law: a package whose references ask for nothing concrete — in particular
/// one with no references at all — activates exactly the transitive
/// expansion of its own `default` capability, over its own table.
pub proof fn lemma_default_fallback(md: ManifestMetadata, members: Seq<PackageEntry>)
    requires
        md.feature_scope_refs@.len() == 0,
    ensures
        activated_spec(md, members) == own_default_set(md.feature_scope_decl),
{
    let rv = refs_views(md.feature_scope_refs@);
    assert(rv =~= Seq::<RefView>::empty());
    assert(refs_set(members, rv) =~= Set::<Seq<char>>::empty());
    assert(activated_spec(md, members) =~= own_default_set(md.feature_scope_decl));
}

/// The declaration table of the producer that a reference names, when the
/// producer is a member and declares one.
pub open spec fn producer_decl(members: Seq<PackageEntry>, pkg: Seq<char>) -> Option<
    FeatureScopeDecl,
> {
    match topo_find(members, pkg) {
        None => None,
        Some(e) => e.metadata.feature_scope_decl,
    }
}

proof fn lemma_requested_contains(
    dm: Map<Seq<char>, Seq<Seq<char>>>,
    feats: Seq<Seq<char>>,
    j: int,
)
    requires
        0 <= j < feats.len(),
        dm.contains_key(feats[j]),
    ensures
        expand(dm, feats[j]).subset_of(requested_set(dm, feats)),
    decreases feats.len(),
{
    if j == feats.len() - 1 {
    } else {
        assert(feats.drop_last()[j] == feats[j]);
        lemma_requested_contains(dm, feats.drop_last(), j);
    }
}

proof fn lemma_refs_set_contains(members: Seq<PackageEntry>, refs: Seq<RefView>, i: int)
    requires
        0 <= i < refs.len(),
    ensures
        ref_set(members, refs[i]).subset_of(refs_set(members, refs)),
    decreases refs.len(),
{
    if i == refs.len() - 1 {
    } else {
        assert(refs.drop_last()[i] == refs[i]);
        lemma_refs_set_contains(members, refs.drop_last(), i);
    }
}

/// Law: every capability that a reference requests and that its producer
/// declares contributes its whole transitive expansion to the activated set
/// — so two references to one producer requesting different capabilities
/// activate at least the union of both expansions.
pub proof fn lemma_reference_union(
    md: ManifestMetadata,
    members: Seq<PackageEntry>,
    i: int,
    f: Seq<char>,
)
    requires
        0 <= i < refs_views(md.feature_scope_refs@).len(),
        refs_views(md.feature_scope_refs@)[i].features.contains(f),
        producer_decl(members, refs_views(md.feature_scope_refs@)[i].package) matches Some(d)
            && d@.contains_key(f),
    ensures
        producer_decl(members, refs_views(md.feature_scope_refs@)[i].package) matches Some(d)
            ==> expand(d@, f).subset_of(activated_spec(md, members)),
{
    let rv = refs_views(md.feature_scope_refs@);
    let r = rv[i];
    match producer_decl(members, r.package) {
        None => {},
        Some(d) => {
            let j = choose|j: int| 0 <= j < r.features.len() && r.features[j] == f;
            lemma_requested_contains(d@, r.features, j);
            assert(ref_set(members, r) == requested_set(d@, r.features));
            lemma_refs_set_contains(members, rv, i);
        },
    }
}

} // verus!
