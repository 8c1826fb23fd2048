//! Installation-order computation over a local package catalog: closure
//! traversal from root packages, topological ordering, and version-conflict
//! detection.
use vstd::prelude::*;
use vstd::string::StringExecFns;

use crate::error::TpmgrError;
use crate::text::{contains_str, str_eq, vec_contains_str, views_of};

verus! {

/// One dependency edge of a package.
#[derive(Debug)]
pub struct Dependency {
    pub name: String,
    pub version_constraint: String,
    pub optional: bool,
}

/// Mathematical model of a dependency edge.
pub struct DependencyModel {
    pub name: Seq<char>,
    pub version_constraint: Seq<char>,
    pub optional: bool,
}

impl View for Dependency {
    type V = DependencyModel;

    open spec fn view(&self) -> DependencyModel {
        DependencyModel {
            name: self.name@,
            version_constraint: self.version_constraint@,
            optional: self.optional,
        }
    }
}

impl Dependency {
    /// A copy of this dependency.
    pub fn duplicate(&self) -> (r: Dependency)
        ensures
            r@ == self@,
    {
        Dependency {
            name: self.name.clone(),
            version_constraint: self.version_constraint.clone(),
            optional: self.optional,
        }
    }
}

/// The models of a sequence of dependency edges.
pub open spec fn dep_models(v: Seq<Dependency>) -> Seq<DependencyModel> {
    v.map_values(|d: Dependency| d@)
}

/// One concrete package version with its dependencies.
#[derive(Debug)]
pub struct ResolvedPackage {
    pub name: String,
    pub version: String,
    pub dependencies: Vec<Dependency>,
}

/// Mathematical model of a package version.
pub struct PackageModel {
    pub name: Seq<char>,
    pub version: Seq<char>,
    pub dependencies: Seq<DependencyModel>,
}

impl View for ResolvedPackage {
    type V = PackageModel;

    open spec fn view(&self) -> PackageModel {
        PackageModel {
            name: self.name@,
            version: self.version@,
            dependencies: dep_models(self.dependencies@),
        }
    }
}

impl ResolvedPackage {
    /// A copy of this package record.
    pub fn duplicate(&self) -> (r: ResolvedPackage)
        ensures
            r@ == self@,
    {
        let mut deps: Vec<Dependency> = Vec::new();
        let mut i: usize = 0;
        while i < self.dependencies.len()
            invariant
                i <= self.dependencies@.len(),
                dep_models(deps@) == dep_models(self.dependencies@).subrange(0, i as int),
            decreases self.dependencies@.len() - i,
        {
            let d = self.dependencies[i].duplicate();
            proof {
                assert(dep_models(deps@.push(d)) =~= dep_models(self.dependencies@).subrange(
                    0,
                    i + 1,
                ));
            }
            deps.push(d);
            i += 1;
        }
        proof {
            assert(dep_models(self.dependencies@).subrange(0, self.dependencies@.len() as int)
                =~= dep_models(self.dependencies@));
        }
        ResolvedPackage { name: self.name.clone(), version: self.version.clone(), dependencies: deps }
    }
}

/// The models of a sequence of package records.
pub open spec fn package_models(v: Seq<ResolvedPackage>) -> Seq<PackageModel> {
    v.map_values(|p: ResolvedPackage| p@)
}

/// The versions the catalog holds under one name, oldest first.
struct CatalogEntry {
    name: String,
    versions: Vec<ResolvedPackage>,
}

/// The versions the catalog sequence holds under `name`: those of the first
/// entry carrying that name.
spec fn cat_versions(cat: Seq<CatalogEntry>, name: Seq<char>) -> Seq<PackageModel>
    decreases cat.len(),
{
    if cat.len() == 0 {
        Seq::empty()
    } else if cat[0].name@ == name {
        package_models(cat[0].versions@)
    } else {
        cat_versions(cat.drop_first(), name)
    }
}

/// Catalog well-formedness: entry names are unique, no entry is empty, and
/// every version carries its entry's name.
spec fn cat_wf(cat: Seq<CatalogEntry>) -> bool {
    &&& forall|i: int, j: int|
        0 <= i < j < cat.len() ==> (#[trigger] cat[i]).name@ != (#[trigger] cat[j]).name@
    &&& forall|i: int| 0 <= i < cat.len() ==> (#[trigger] cat[i]).versions@.len() > 0
    &&& forall|i: int, k: int|
        0 <= i < cat.len() && 0 <= k < cat[i].versions@.len() ==> (#[trigger] cat[i].versions@[k])@.name
            == cat[i].name@
}

proof fn lemma_cat_versions_first(cat: Seq<CatalogEntry>, name: Seq<char>, i: int)
    requires
        0 <= i < cat.len(),
        cat[i].name@ == name,
        forall|k: int| 0 <= k < i ==> (#[trigger] cat[k]).name@ != name,
    ensures
        cat_versions(cat, name) == package_models(cat[i].versions@),
    decreases i,
{
    if i > 0 {
        lemma_cat_versions_first(cat.drop_first(), name, i - 1);
    }
}

proof fn lemma_cat_versions_none(cat: Seq<CatalogEntry>, name: Seq<char>)
    requires
        forall|k: int| 0 <= k < cat.len() ==> (#[trigger] cat[k]).name@ != name,
    ensures
        cat_versions(cat, name) == Seq::<PackageModel>::empty(),
    decreases cat.len(),
{
    if cat.len() > 0 {
        lemma_cat_versions_none(cat.drop_first(), name);
    }
}

proof fn lemma_cat_versions_update(cat1: Seq<CatalogEntry>, cat2: Seq<CatalogEntry>, i: int, n: Seq<char>)
    requires
        cat1.len() == cat2.len(),
        0 <= i < cat1.len(),
        forall|k: int| 0 <= k < cat1.len() && k != i ==> #[trigger] cat2[k] == cat1[k],
        cat2[i].name@ == cat1[i].name@,
        n != cat1[i].name@,
    ensures
        cat_versions(cat2, n) == cat_versions(cat1, n),
    decreases cat1.len(),
{
    if cat1.len() > 0 {
        if cat1[0].name@ == n {
            assert(cat2[0] == cat1[0]);
        } else if i == 0 {
            assert(cat1.drop_first() =~= cat2.drop_first());
        } else {
            assert(cat2[0] == cat1[0]);
            assert forall|k: int|
                0 <= k < cat1.drop_first().len() && k != i - 1 implies #[trigger] cat2.drop_first()[k]
                == cat1.drop_first()[k] by {
                assert(cat2[k + 1] == cat1[k + 1]);
            }
            lemma_cat_versions_update(cat1.drop_first(), cat2.drop_first(), i - 1, n);
        }
    }
}

proof fn lemma_cat_versions_push(cat: Seq<CatalogEntry>, entry: CatalogEntry, n: Seq<char>)
    requires
        n != entry.name@,
    ensures
        cat_versions(cat.push(entry), n) == cat_versions(cat, n),
    decreases cat.len(),
{
    let pushed = cat.push(entry);
    assert(pushed.len() == cat.len() + 1);
    if cat.len() == 0 {
        assert(pushed[0] == entry);
        assert(pushed[0].name@ != n);
        assert(pushed.drop_first() =~= Seq::<CatalogEntry>::empty());
        assert(cat_versions(pushed, n) == cat_versions(pushed.drop_first(), n));
        assert(cat_versions(pushed.drop_first(), n) == Seq::<PackageModel>::empty());
        assert(cat_versions(cat, n) == Seq::<PackageModel>::empty());
    } else {
        assert(pushed[0] == cat[0]);
        if cat[0].name@ == n {
            assert(cat_versions(pushed, n) == package_models(pushed[0].versions@));
            assert(cat_versions(cat, n) == package_models(cat[0].versions@));
        } else {
            assert(pushed.drop_first() =~= cat.drop_first().push(entry));
            lemma_cat_versions_push(cat.drop_first(), entry, n);
            assert(cat_versions(pushed, n) == cat_versions(pushed.drop_first(), n));
            assert(cat_versions(cat, n) == cat_versions(cat.drop_first(), n));
        }
    }
}

/// A local catalog of package versions keyed by name, and the resolver that
/// computes installation orders over it.
pub struct DependencyResolver {
    packages: Vec<CatalogEntry>,
}

impl DependencyResolver {
    /// Catalog well-formedness; established by `new` and kept by
    /// `add_package`.
    pub closed spec fn wf(&self) -> bool {
        cat_wf(self.packages@)
    }

    /// The models of the versions stored under `name`, oldest first.
    pub closed spec fn versions_of(&self, name: Seq<char>) -> Seq<PackageModel> {
        cat_versions(self.packages@, name)
    }

    /// `n` is reachable from the roots in at most `k` steps: it is a root,
    /// or a non-optional dependency of the selected version of a reachable
    /// catalogued name.
    pub open spec fn spec_reaches(&self, roots: Seq<Seq<char>>, n: Seq<char>, k: nat) -> bool
        decreases k,
    {
        if crate::text::contains_str(roots, n) {
            true
        } else if k == 0 {
            false
        } else {
            exists|m: Seq<char>, d: int|
                {
                    &&& self.spec_reaches(roots, m, (k - 1) as nat)
                    &&& self.versions_of(m).len() > 0
                    &&& 0 <= d < self.versions_of(m).last().dependencies.len()
                    &&& (#[trigger] self.versions_of(m).last().dependencies[d]).name == n
                    &&& !self.versions_of(m).last().dependencies[d].optional
                }
        }
    }

    /// An empty catalog.
    pub fn new() -> (r: DependencyResolver)
        ensures
            r.wf(),
            forall|n: Seq<char>| r.versions_of(n) == Seq::<PackageModel>::empty(),
    {
        DependencyResolver { packages: Vec::new() }
    }

    /// Store one package version under its name, after any versions already
    /// stored there; versions under other names stay as they are.
    pub fn add_package(&mut self, package: ResolvedPackage)
        requires
            old(self).wf(),
        ensures
            final(self).wf(),
            final(self).versions_of(package@.name) == old(self).versions_of(package@.name).push(
                package@,
            ),
            forall|n: Seq<char>|
                n != package@.name ==> final(self).versions_of(n) == old(self).versions_of(n),
    {
        let ghost cat0 = self.packages@;
        let n: usize = self.packages.len();
        let mut i: usize = 0;
        while i < n
            invariant
                i <= n,
                n == self.packages@.len(),
                self.packages@ == cat0,
                forall|k: int| 0 <= k < i ==> (#[trigger] cat0[k]).name@ != package@.name,
            decreases n - i,
        {
            if str_eq(self.packages[i].name.as_str(), package.name.as_str()) {
                let ghost pm = package@;
                let mut entry = self.packages.remove(i);
                entry.versions.push(package);
                self.packages.insert(i, entry);
                proof {
                    let cat2 = self.packages@;
                    assert(cat2.len() == cat0.len());
                    assert forall|k: int| 0 <= k < cat0.len() && k != i implies #[trigger] cat2[k]
                        == cat0[k] by {
                        if k < i {
                            assert(cat0.remove(i as int)[k] == cat0[k]);
                        } else {
                            assert(cat0.remove(i as int)[k - 1] == cat0[k]);
                        }
                    }
                    assert(cat2[i as int].name@ == cat0[i as int].name@);
                    assert(cat2[i as int].versions@ =~= cat0[i as int].versions@.push(
                        cat2[i as int].versions@.last(),
                    ));
                    // versions stored under the package's own name gain it at
                    // the end
                    lemma_cat_versions_first(cat0, pm.name, i as int);
                    lemma_cat_versions_first(cat2, pm.name, i as int);
                    assert(package_models(cat2[i as int].versions@) =~= package_models(
                        cat0[i as int].versions@,
                    ).push(pm));
                    // other names see the same versions
                    assert forall|n2: Seq<char>|
                        n2 != pm.name implies cat_versions(cat2, n2) == cat_versions(
                        cat0,
                        n2,
                    ) by {
                        lemma_cat_versions_update(cat0, cat2, i as int, n2);
                    }
                    // well-formedness is kept
                    assert(cat_wf(cat2)) by {
                        assert forall|a: int, b: int|
                            0 <= a < b < cat2.len() implies (#[trigger] cat2[a]).name@ != (
                            #[trigger] cat2[b]).name@ by {
                            assert(cat2[a].name@ == cat0[a].name@ && cat2[b].name@
                                == cat0[b].name@);
                        }
                        assert forall|a: int| 0 <= a < cat2.len() implies (#[trigger] cat2[a]).versions@.len()
                            > 0 by {
                            if a != i {
                                assert(cat2[a] == cat0[a]);
                            }
                        }
                        assert forall|a: int, k: int|
                            0 <= a < cat2.len() && 0 <= k < cat2[a].versions@.len() implies (
                        #[trigger] cat2[a].versions@[k])@.name == cat2[a].name@ by {
                            if a != i {
                                assert(cat2[a] == cat0[a]);
                            } else {
                                if k < cat0[i as int].versions@.len() {
                                    assert(cat2[a].versions@[k] == cat0[i as int].versions@[k]);
                                } else {
                                    assert(cat2[a].versions@[k]@ == pm);
                                }
                            }
                        }
                    }
                }
                return ;
            }
            i += 1;
        }
        let ghost pm = package@;
        let entry = CatalogEntry { name: package.name.clone(), versions: vec![package] };
        proof {
            let cat2 = cat0.push(entry);
            lemma_cat_versions_none(cat0, pm.name);
            lemma_cat_versions_first(cat2, pm.name, cat0.len() as int);
            assert(package_models(entry.versions@) =~= Seq::<PackageModel>::empty().push(pm));
            assert forall|n2: Seq<char>|
                n2 != pm.name implies cat_versions(cat2, n2) == cat_versions(cat0, n2) by {
                lemma_cat_versions_push(cat0, entry, n2);
            }
            assert(cat_wf(cat2)) by {
                assert forall|a: int, b: int|
                    0 <= a < b < cat2.len() implies (#[trigger] cat2[a]).name@ != (
                #[trigger] cat2[b]).name@ by {
                    if b == cat0.len() as int {
                        assert(cat2[a] == cat0[a]);
                        assert(cat2[b].name@ == pm.name);
                    } else {
                        assert(cat2[a] == cat0[a] && cat2[b] == cat0[b]);
                    }
                }
                assert forall|a: int| 0 <= a < cat2.len() implies (#[trigger] cat2[a]).versions@.len()
                    > 0 by {
                    if a != cat0.len() as int {
                        assert(cat2[a] == cat0[a]);
                    }
                }
                assert forall|a: int, k: int|
                    0 <= a < cat2.len() && 0 <= k < cat2[a].versions@.len() implies (
                #[trigger] cat2[a].versions@[k])@.name == cat2[a].name@ by {
                    if a != cat0.len() as int {
                        assert(cat2[a] == cat0[a]);
                    }
                }
            }
        }
        self.packages.push(entry);
    }

    /// The version that resolution selects for a name: the one stored last,
    /// or nothing when the catalog has no entry under that name.
    pub fn find_best_version(&self, package_name: &str) -> (r: Result<
        Option<ResolvedPackage>,
        TpmgrError,
    >)
        ensures
            r matches Ok(opt) && (match opt {
                Some(p) => self.versions_of(package_name@).len() > 0 && p@ == self.versions_of(
                    package_name@,
                ).last(),
                None => self.versions_of(package_name@).len() == 0,
            }),
    {
        let ghost cat0 = self.packages@;
        let n: usize = self.packages.len();
        let mut i: usize = 0;
        while i < n
            invariant
                i <= n,
                n == self.packages@.len(),
                self.packages@ == cat0,
                forall|k: int| 0 <= k < i ==> (#[trigger] cat0[k]).name@ != package_name@,
            decreases n - i,
        {
            if str_eq(self.packages[i].name.as_str(), package_name) {
                proof {
                    lemma_cat_versions_first(cat0, package_name@, i as int);
                }
                let vs = &self.packages[i].versions;
                if vs.len() == 0 {
                    return Ok(None);
                }
                let p = vs[vs.len() - 1].duplicate();
                proof {
                    assert(package_models(cat0[i as int].versions@).last() == p@);
                }
                return Ok(Some(p));
            }
            i += 1;
        }
        proof {
            lemma_cat_versions_none(cat0, package_name@);
        }
        Ok(None)
    }
}

} // verus!

verus! {

/// Some entry of `res` carries the name `n`.
pub open spec fn name_in(res: Seq<PackageModel>, n: Seq<char>) -> bool {
    exists|j: int| 0 <= j < res.len() && (#[trigger] res[j]).name == n
}

/// Every dependency of `p` is named by some entry of `res`.
pub open spec fn deps_satisfied(p: PackageModel, res: Seq<PackageModel>) -> bool {
    forall|d: int|
        0 <= d < p.dependencies.len() ==> name_in(res, (#[trigger] p.dependencies[d]).name)
}

/// The package record appears in `ns`.
pub open spec fn model_in(p: PackageModel, ns: Seq<PackageModel>) -> bool {
    exists|a: int| 0 <= a < ns.len() && (#[trigger] ns[a]) == p
}

/// Some entry strictly before position `i` carries the name `n`.
pub open spec fn name_in_prefix(res: Seq<PackageModel>, i: int, n: Seq<char>) -> bool {
    exists|j: int| 0 <= j < i && (#[trigger] res[j]).name == n
}

/// Every entry's dependencies are named by strictly earlier entries: the
/// order installs prerequisites first.
pub open spec fn topo_ordered(res: Seq<PackageModel>) -> bool {
    forall|i: int, d: int|
        0 <= i < res.len() && 0 <= d < res[i].dependencies.len() ==> name_in_prefix(
            res,
            i,
            (#[trigger] res[i].dependencies[d]).name,
        )
}

/// Some queue slot at or after `head` holds the name `n`.
spec fn in_tail(q: Seq<String>, head: int, n: Seq<char>) -> bool {
    exists|k: int| head <= k < q.len() && (#[trigger] q[k])@ == n
}

impl DependencyResolver {
    /// Index of the first catalog entry carrying `name`.
    fn find_entry(&self, name: &str) -> (r: Option<usize>)
        ensures
            match r {
                Some(i) => i < self.packages@.len() && self.packages@[i as int].name@ == name@
                    && (forall|k: int|
                    0 <= k < i ==> (#[trigger] self.packages@[k]).name@ != name@),
                None => forall|k: int|
                    0 <= k < self.packages@.len() ==> (#[trigger] self.packages@[k]).name@
                        != name@,
            },
    {
        let n: usize = self.packages.len();
        let mut i: usize = 0;
        while i < n
            invariant
                i <= n,
                n == self.packages@.len(),
                forall|k: int| 0 <= k < i ==> (#[trigger] self.packages@[k]).name@ != name@,
            decreases n - i,
        {
            if str_eq(self.packages[i].name.as_str(), name) {
                return Some(i);
            }
            i += 1;
        }
        None
    }

    /// Breadth-first closure from the root names: every reachable name with
    /// a catalog entry contributes its selected version once.
    fn closure_nodes(&self, root_packages: &[String]) -> (r: Vec<ResolvedPackage>)
        requires
            self.wf(),
        ensures
            ({
                let ns = package_models(r@);
                let roots = views_of(root_packages@);
                &&& (forall|a: int|
                    0 <= a < ns.len() ==> self.versions_of((#[trigger] ns[a]).name).len() > 0 && ns[a]
                        == self.versions_of(ns[a].name).last())
                &&& (forall|a: int, b: int|
                    0 <= a < b < ns.len() ==> (#[trigger] ns[a]).name != (#[trigger] ns[b]).name)
                &&& (forall|a: int, d: int|
                    0 <= a < ns.len() && 0 <= d < ns[a].dependencies.len() && !(#[trigger] ns[a].dependencies[d]).optional
                        && self.versions_of(ns[a].dependencies[d].name).len() > 0 ==> name_in(
                        ns,
                        ns[a].dependencies[d].name,
                    ))
                &&& (forall|k: int|
                    0 <= k < roots.len() && self.versions_of(#[trigger] roots[k]).len() > 0
                        ==> name_in(ns, roots[k]))
            }),
    {
        let ghost cat0 = self.packages@;
        let mut queue: Vec<String> = Vec::new();
        let rn: usize = root_packages.len();
        let mut k: usize = 0;
        proof {
            assert(views_of(queue@) =~= views_of(root_packages@).subrange(0, 0));
        }
        while k < rn
            invariant
                k <= rn,
                rn == root_packages@.len(),
                views_of(queue@) == views_of(root_packages@).subrange(0, k as int),
            decreases rn - k,
        {
            let item = vstd::slice::slice_index_get(root_packages, k).clone();
            proof {
                assert(views_of(queue@.push(item)) =~= views_of(root_packages@).subrange(
                    0,
                    k + 1,
                ));
            }
            queue.push(item);
            k += 1;
        }
        proof {
            assert(views_of(root_packages@).subrange(0, rn as int) =~= views_of(root_packages@));
            assert forall|k2: int|
                0 <= k2 < root_packages@.len() implies in_tail(
                queue@,
                0,
                #[trigger] views_of(root_packages@)[k2],
            ) by {
                assert(queue@[k2]@ == views_of(root_packages@)[k2]);
            }
        }
        let mut head: usize = 0;
        let mut visited: Vec<String> = Vec::new();
        let mut nodes: Vec<ResolvedPackage> = Vec::new();
        let ghost mut eidx: Seq<int> = Seq::empty();
        while head < queue.len()
            invariant
                head <= queue@.len(),
                self.packages@ == cat0,
                cat_wf(cat0),
                eidx.len() == nodes@.len(),
                nodes@.len() <= cat0.len(),
                forall|a: int, b: int| 0 <= a < b < eidx.len() ==> eidx[a] != eidx[b],
                forall|a: int| 0 <= a < eidx.len() ==> 0 <= #[trigger] eidx[a] < cat0.len(),
                forall|a: int|
                    0 <= a < eidx.len() ==> cat0[#[trigger] eidx[a]].name@ == package_models(
                        nodes@,
                    )[a].name,
                forall|a: int|
                    0 <= a < nodes@.len() ==> cat_versions(
                        cat0,
                        (#[trigger] package_models(nodes@)[a]).name,
                    ).len() > 0 && package_models(nodes@)[a] == cat_versions(
                        cat0,
                        package_models(nodes@)[a].name,
                    ).last(),
                forall|a: int, b: int|
                    0 <= a < b < nodes@.len() ==> (#[trigger] package_models(nodes@)[a]).name != (
                    #[trigger] package_models(nodes@)[b]).name,
                forall|a: int|
                    0 <= a < nodes@.len() ==> contains_str(
                        views_of(visited@),
                        (#[trigger] package_models(nodes@)[a]).name,
                    ),
                forall|v: int|
                    0 <= v < visited@.len() && cat_versions(
                        cat0,
                        #[trigger] views_of(visited@)[v],
                    ).len() > 0 ==> name_in(package_models(nodes@), views_of(visited@)[v]),
                forall|a: int, d: int|
                    0 <= a < nodes@.len() && 0 <= d < package_models(nodes@)[a].dependencies.len()
                        && !(#[trigger] package_models(nodes@)[a].dependencies[d]).optional
                        ==> contains_str(
                        views_of(visited@),
                        package_models(nodes@)[a].dependencies[d].name,
                    ) || in_tail(
                        queue@,
                        head as int,
                        package_models(nodes@)[a].dependencies[d].name,
                    ),
                forall|k2: int|
                    0 <= k2 < root_packages@.len() ==> contains_str(
                        views_of(visited@),
                        #[trigger] views_of(root_packages@)[k2],
                    ) || in_tail(queue@, head as int, views_of(root_packages@)[k2]),
            decreases cat0.len() - nodes@.len(), queue@.len() - head,
        {
            let ghost old_queue = queue@;
            let ghost old_head = head as int;
            let name = queue[head].clone();
            head += 1;
            if vec_contains_str(&visited, name.as_str()) {
                proof {
                    assert forall|n2: Seq<char>|
                        in_tail(old_queue, old_head, n2) implies contains_str(
                        views_of(visited@),
                        n2,
                    ) || in_tail(queue@, head as int, n2) by {
                        let q = choose|q: int|
                            old_head <= q < old_queue.len() && (#[trigger] old_queue[q])@ == n2;
                        if q == old_head {
                            assert(n2 == name@);
                        } else {
                            assert(queue@[q]@ == n2);
                        }
                    }
                }
            } else {
                let ghost vis0 = views_of(visited@);
                visited.push(name.clone());
                proof {
                    assert(views_of(visited@) =~= vis0.push(name@));
                    assert forall|n2: Seq<char>|
                        contains_str(vis0, n2) implies contains_str(views_of(visited@), n2) by {
                        let w = choose|w: int| 0 <= w < vis0.len() && vis0[w] == n2;
                        assert(views_of(visited@)[w] == n2);
                    }
                }
                match self.find_entry(name.as_str()) {
                    Some(fi) => {
                        proof {
                            lemma_cat_versions_first(cat0, name@, fi as int);
                        }
                        let vs_len: usize = self.packages[fi].versions.len();
                        let pkg = self.packages[fi].versions[vs_len - 1].duplicate();
                        proof {
                            assert(pkg@ == package_models(cat0[fi as int].versions@).last());
                            assert(pkg@.name == name@);
                        }
                        let ghost q0 = queue@;
                        let mut dk: usize = 0;
                        while dk < pkg.dependencies.len()
                            invariant
                                dk <= pkg.dependencies@.len(),
                                q0.len() >= head,
                                queue@.len() >= q0.len(),
                                queue@.subrange(0, q0.len() as int) == q0,
                                forall|d: int|
                                    0 <= d < dk && !(#[trigger] dep_models(
                                        pkg.dependencies@,
                                    )[d]).optional ==> in_tail(
                                        queue@,
                                        head as int,
                                        dep_models(pkg.dependencies@)[d].name,
                                    ),
                            decreases pkg.dependencies@.len() - dk,
                        {
                            let ghost qd = queue@;
                            if !pkg.dependencies[dk].optional {
                                let dep_name = pkg.dependencies[dk].name.clone();
                                proof {
                                    assert(dep_name@ == dep_models(pkg.dependencies@)[
                                        dk as int].name);
                                }
                                queue.push(dep_name);
                                proof {
                                    assert(queue@.subrange(0, q0.len() as int) =~= qd.subrange(
                                        0,
                                        q0.len() as int,
                                    ));
                                    assert(queue@[qd.len() as int]@ == dep_models(
                                        pkg.dependencies@,
                                    )[dk as int].name);
                                    assert forall|d: int|
                                        0 <= d < dk + 1 && !(#[trigger] dep_models(
                                            pkg.dependencies@,
                                        )[d]).optional implies in_tail(
                                        queue@,
                                        head as int,
                                        dep_models(pkg.dependencies@)[d].name,
                                    ) by {
                                        if d < dk {
                                            let q = choose|q: int|
                                                head <= q < qd.len() && (#[trigger] qd[q])@
                                                    == dep_models(pkg.dependencies@)[d].name;
                                            assert(queue@[q]@ == dep_models(
                                                pkg.dependencies@,
                                            )[d].name);
                                        } else {
                                            assert(queue@[qd.len() as int]@ == dep_models(
                                                pkg.dependencies@,
                                            )[d].name);
                                        }
                                    }
                                }
                            }
                            dk += 1;
                        }
                        let ghost ns0 = package_models(nodes@);
                        let ghost pm = pkg@;
                        nodes.push(pkg);
                        proof {
                            eidx = eidx.push(fi as int);
                            let ns1 = package_models(nodes@);
                            assert(ns1 =~= ns0.push(pm));
                            // the new entry index is fresh: its name is not
                            // in the old visited set, while old nodes are
                            assert forall|a: int, b: int|
                                0 <= a < b < eidx.len() implies eidx[a] != eidx[b] by {
                                if b == eidx.len() - 1 {
                                    if eidx[a] == fi as int {
                                        assert(cat0[eidx[a]].name@ == ns0[a].name);
                                        assert(ns0[a].name == name@);
                                        assert(contains_str(vis0, ns0[a].name));
                                        let w = choose|w: int|
                                            0 <= w < vis0.len() && vis0[w] == ns0[a].name;
                                        assert(false);
                                    }
                                }
                            }
                            // pigeonhole keeps the node count within the catalog
                            lemma_distinct_bound(eidx, cat0.len() as int);
                            // distinct names among nodes
                            assert forall|a: int, b: int|
                                0 <= a < b < ns1.len() implies (#[trigger] ns1[a]).name != (
                            #[trigger] ns1[b]).name by {
                                if b == ns1.len() - 1 {
                                    assert(contains_str(vis0, ns0[a].name));
                                    if ns0[a].name == name@ {
                                        let w = choose|w: int|
                                            0 <= w < vis0.len() && vis0[w] == ns0[a].name;
                                        assert(false);
                                    }
                                }
                            }
                            // every visited name with versions is a node name
                            assert forall|v: int|
                                0 <= v < visited@.len() && cat_versions(
                                    cat0,
                                    #[trigger] views_of(visited@)[v],
                                ).len() > 0 implies name_in(ns1, views_of(visited@)[v]) by {
                                if v < vis0.len() {
                                    assert(name_in(ns0, views_of(visited@)[v]));
                                    let j = choose|j: int|
                                        0 <= j < ns0.len() && (#[trigger] ns0[j]).name == views_of(
                                            visited@,
                                        )[v];
                                    assert(ns1[j].name == views_of(visited@)[v]);
                                } else {
                                    assert(views_of(visited@)[v] == name@);
                                    assert(ns1[ns1.len() - 1].name == name@);
                                }
                            }
                            // node names are visited
                            assert forall|a: int|
                                0 <= a < ns1.len() implies contains_str(
                                views_of(visited@),
                                (#[trigger] ns1[a]).name,
                            ) by {
                                if a < ns0.len() {
                                    assert(contains_str(vis0, ns0[a].name));
                                    let w = choose|w: int|
                                        0 <= w < vis0.len() && vis0[w] == ns0[a].name;
                                    assert(views_of(visited@)[w] == ns1[a].name);
                                } else {
                                    assert(views_of(visited@)[vis0.len() as int] == name@);
                                }
                            }
                            // dependency coverage for old nodes and the new one
                            assert forall|a: int, d: int|
                                0 <= a < ns1.len() && 0 <= d < ns1[a].dependencies.len() && !(
                            #[trigger] ns1[a].dependencies[d]).optional implies contains_str(
                                views_of(visited@),
                                ns1[a].dependencies[d].name,
                            ) || in_tail(queue@, head as int, ns1[a].dependencies[d].name) by {
                                if a < ns0.len() {
                                    assert(ns1[a] == ns0[a]);
                                    if contains_str(vis0, ns0[a].dependencies[d].name) {
                                        let w = choose|w: int|
                                            0 <= w < vis0.len() && vis0[w] == ns0[a].dependencies[
                                                d].name;
                                        assert(views_of(visited@)[w] == ns0[a].dependencies[
                                            d].name);
                                    } else if in_tail(old_queue, old_head, ns0[a].dependencies[
                                        d].name) {
                                        let q = choose|q: int|
                                            old_head <= q < old_queue.len() && (
                                            #[trigger] old_queue[q])@ == ns0[a].dependencies[
                                                d].name;
                                        if q == old_head {
                                            assert(views_of(visited@)[vis0.len() as int]
                                                == name@);
                                            assert(ns0[a].dependencies[d].name == name@);
                                        } else {
                                            assert(queue@[q]@ == old_queue[q]@);
                                        }
                                    }
                                } else {
                                    assert(ns1[a] == pm);
                                    assert(dep_models(pkg.dependencies@) =~= pm.dependencies);
                                }
                            }
                            // roots stay covered
                            assert forall|k2: int|
                                0 <= k2 < root_packages@.len() implies contains_str(
                                views_of(visited@),
                                #[trigger] views_of(root_packages@)[k2],
                            ) || in_tail(queue@, head as int, views_of(root_packages@)[k2]) by {
                                let rt = views_of(root_packages@)[k2];
                                if contains_str(vis0, rt) {
                                    let w = choose|w: int| 0 <= w < vis0.len() && vis0[w] == rt;
                                    assert(views_of(visited@)[w] == rt);
                                } else if in_tail(old_queue, old_head, rt) {
                                    let q = choose|q: int|
                                        old_head <= q < old_queue.len() && (
                                        #[trigger] old_queue[q])@ == rt;
                                    if q == old_head {
                                        assert(views_of(visited@)[vis0.len() as int] == name@);
                                    } else {
                                        assert(queue@[q]@ == old_queue[q]@);
                                    }
                                }
                            }
                        }
                    },
                    None => {
                        proof {
                            lemma_cat_versions_none(cat0, name@);
                            let ns = package_models(nodes@);
                            assert forall|v: int|
                                0 <= v < visited@.len() && cat_versions(
                                    cat0,
                                    #[trigger] views_of(visited@)[v],
                                ).len() > 0 implies name_in(ns, views_of(visited@)[v]) by {
                                if v < vis0.len() {
                                } else {
                                    assert(views_of(visited@)[v] == name@);
                                }
                            }
                            assert forall|a: int|
                                0 <= a < ns.len() implies contains_str(
                                views_of(visited@),
                                (#[trigger] ns[a]).name,
                            ) by {
                                assert(contains_str(vis0, ns[a].name));
                                let w = choose|w: int| 0 <= w < vis0.len() && vis0[w] == ns[a].name;
                                assert(views_of(visited@)[w] == ns[a].name);
                            }
                            assert forall|a: int, d: int|
                                0 <= a < ns.len() && 0 <= d < ns[a].dependencies.len() && !(
                            #[trigger] ns[a].dependencies[d]).optional implies contains_str(
                                views_of(visited@),
                                ns[a].dependencies[d].name,
                            ) || in_tail(queue@, head as int, ns[a].dependencies[d].name) by {
                                if contains_str(vis0, ns[a].dependencies[d].name) {
                                    let w = choose|w: int|
                                        0 <= w < vis0.len() && vis0[w] == ns[a].dependencies[
                                            d].name;
                                    assert(views_of(visited@)[w] == ns[a].dependencies[d].name);
                                } else if in_tail(old_queue, old_head, ns[a].dependencies[
                                    d].name) {
                                    let q = choose|q: int|
                                        old_head <= q < old_queue.len() && (
                                        #[trigger] old_queue[q])@ == ns[a].dependencies[d].name;
                                    if q == old_head {
                                        assert(views_of(visited@)[vis0.len() as int] == name@);
                                    } else {
                                        assert(queue@[q]@ == old_queue[q]@);
                                    }
                                }
                            }
                            assert forall|k2: int|
                                0 <= k2 < root_packages@.len() implies contains_str(
                                views_of(visited@),
                                #[trigger] views_of(root_packages@)[k2],
                            ) || in_tail(queue@, head as int, views_of(root_packages@)[k2]) by {
                                let rt = views_of(root_packages@)[k2];
                                if contains_str(vis0, rt) {
                                    let w = choose|w: int| 0 <= w < vis0.len() && vis0[w] == rt;
                                    assert(views_of(visited@)[w] == rt);
                                } else if in_tail(old_queue, old_head, rt) {
                                    let q = choose|q: int|
                                        old_head <= q < old_queue.len() && (
                                        #[trigger] old_queue[q])@ == rt;
                                    if q == old_head {
                                        assert(views_of(visited@)[vis0.len() as int] == name@);
                                    } else {
                                        assert(queue@[q]@ == old_queue[q]@);
                                    }
                                }
                            }
                        }
                    },
                }
            }
        }
        proof {
            // the queue is drained: dependency names and roots are visited,
            // and visited names with versions are nodes
            let ns = package_models(nodes@);
            assert forall|a: int, d: int|
                0 <= a < ns.len() && 0 <= d < ns[a].dependencies.len() && !(
            #[trigger] ns[a].dependencies[d]).optional && cat_versions(
                cat0,
                ns[a].dependencies[d].name,
            ).len() > 0 implies name_in(ns, ns[a].dependencies[d].name) by {
                assert(contains_str(views_of(visited@), ns[a].dependencies[d].name));
                let w = choose|w: int|
                    0 <= w < views_of(visited@).len() && views_of(visited@)[w] == ns[
                        a].dependencies[d].name;
                assert(name_in(ns, views_of(visited@)[w]));
            }
            assert forall|k2: int|
                0 <= k2 < root_packages@.len() && cat_versions(
                    cat0,
                    #[trigger] views_of(root_packages@)[k2],
                ).len() > 0 implies name_in(ns, views_of(root_packages@)[k2]) by {
                assert(contains_str(views_of(visited@), views_of(root_packages@)[k2]));
                let w = choose|w: int|
                    0 <= w < views_of(visited@).len() && views_of(visited@)[w] == views_of(
                        root_packages@,
                    )[k2];
                assert(name_in(ns, views_of(visited@)[w]));
            }
        }
        nodes
    }
}

proof fn lemma_distinct_bound(s: Seq<int>, n: int)
    requires
        n >= 0,
        forall|a: int, b: int| 0 <= a < b < s.len() ==> s[a] != s[b],
        forall|a: int| 0 <= a < s.len() ==> 0 <= #[trigger] s[a] < n,
    ensures
        s.len() <= n,
{
    broadcast use vstd::seq_lib::group_seq_properties;
    broadcast use vstd::set_lib::group_set_properties;
    broadcast use vstd::set::group_set_axioms;

    assert(s.no_duplicates());
    s.unique_seq_to_set();
    let rng = vstd::set_lib::set_int_range(0, n);
    vstd::set_lib::lemma_int_range(0, n);
    assert forall|x: int| s.to_set().contains(x) implies rng.contains(x) by {
        assert(s.contains(x));
        let a = choose|a: int| 0 <= a < s.len() && s[a] == x;
        assert(0 <= s[a] < n);
    }
    assert(s.to_set() <= rng);
    vstd::set_lib::lemma_len_subset(s.to_set(), rng);
}

} // verus!

verus! {

/// Order the closure so that every entry follows all entries it depends on;
/// entries that never become free of unordered dependencies — members of
/// dependency cycles, and dependents of packages outside the closure — are
/// left out.
fn topo_sort(nodes: &Vec<ResolvedPackage>) -> (r: Vec<ResolvedPackage>)
    requires
        forall|a: int, b: int|
            0 <= a < b < package_models(nodes@).len() ==> (#[trigger] package_models(
                nodes@,
            )[a]).name != (#[trigger] package_models(nodes@)[b]).name,
    ensures
        ({
            let res = package_models(r@);
            let ns = package_models(nodes@);
            &&& (forall|i: int| 0 <= i < res.len() ==> model_in(#[trigger] res[i], ns))
            &&& (forall|i: int, j: int|
                0 <= i < j < res.len() ==> (#[trigger] res[i]).name != (#[trigger] res[j]).name)
            &&& topo_ordered(res)
            &&& (forall|a: int|
                0 <= a < ns.len() && deps_satisfied(#[trigger] ns[a], res) ==> name_in(
                    res,
                    ns[a].name,
                ))
        }),
{
    let ghost ns = package_models(nodes@);
    let m: usize = nodes.len();
    let mut done: Vec<bool> = Vec::new();
    while done.len() < m
        invariant
            done@.len() <= m,
            forall|i: int| 0 <= i < done@.len() ==> !(#[trigger] done@[i]),
        decreases m - done@.len(),
    {
        done.push(false);
    }
    let mut sorted_idx: Vec<usize> = Vec::new();
    let mut sorted_names: Vec<String> = Vec::new();
    let mut order: Vec<ResolvedPackage> = Vec::new();
    let mut progress: bool = true;
    while progress
        invariant
            ns == package_models(nodes@),
            m == nodes@.len(),
            done@.len() == m,
            sorted_idx@.len() == order@.len(),
            sorted_idx@.len() == sorted_names@.len(),
            sorted_idx@.len() <= m,
            forall|a: int, b: int|
                0 <= a < b < sorted_idx@.len() ==> sorted_idx@[a] != sorted_idx@[b],
            forall|a: int| 0 <= a < sorted_idx@.len() ==> (#[trigger] sorted_idx@[a]) < m,
            forall|k: int|
                0 <= k < order@.len() ==> #[trigger] package_models(order@)[k] == ns[sorted_idx@[
                    k] as int],
            forall|k: int|
                0 <= k < sorted_names@.len() ==> #[trigger] views_of(sorted_names@)[k]
                    == package_models(order@)[k].name,
            topo_ordered(package_models(order@)),
            forall|i: int|
                0 <= i < m ==> ((#[trigger] done@[i]) <==> exists|k: int|
                    0 <= k < sorted_idx@.len() && sorted_idx@[k] == i),
            !progress ==> (forall|i: int|
                0 <= i < m && !(#[trigger] done@[i]) ==> exists|d: int|
                    0 <= d < ns[i].dependencies.len() && !contains_str(
                        views_of(sorted_names@),
                        ns[i].dependencies[d].name,
                    )),
        decreases m + 1 - sorted_idx@.len(), (if progress { 1int } else { 0int }),
    {
        let mut pick: usize = m;
        let mut i: usize = 0;
        while i < m && pick == m
            invariant
                ns == package_models(nodes@),
                m == nodes@.len(),
                done@.len() == m,
                i <= m,
                pick <= m,
                pick < m ==> !done@[pick as int] && (forall|d: int|
                    0 <= d < ns[pick as int].dependencies.len() ==> contains_str(
                        views_of(sorted_names@),
                        (#[trigger] ns[pick as int].dependencies[d]).name,
                    )),
                pick == m ==> (forall|i2: int|
                    0 <= i2 < i && !(#[trigger] done@[i2]) ==> exists|d: int|
                        0 <= d < ns[i2].dependencies.len() && !contains_str(
                            views_of(sorted_names@),
                            ns[i2].dependencies[d].name,
                        )),
            decreases m - i,
        {
            if !done[i] {
                let dn: usize = nodes[i].dependencies.len();
                let mut ok: bool = true;
                let mut d: usize = 0;
                while d < dn && ok
                    invariant
                        ns == package_models(nodes@),
                        m == nodes@.len(),
                        i < m,
                        d <= dn,
                        dn == nodes@[i as int].dependencies@.len(),
                        ok ==> (forall|d2: int|
                            0 <= d2 < d ==> contains_str(
                                views_of(sorted_names@),
                                (#[trigger] ns[i as int].dependencies[d2]).name,
                            )),
                        !ok ==> (exists|d2: int|
                            0 <= d2 < ns[i as int].dependencies.len() && !contains_str(
                                views_of(sorted_names@),
                                ns[i as int].dependencies[d2].name,
                            )),
                    decreases dn - d, (if ok { 1int } else { 0int }),
                {
                    if !vec_contains_str(&sorted_names, nodes[i].dependencies[d].name.as_str()) {
                        proof {
                            assert(nodes@[i as int].dependencies@[d as int]@ == ns[
                                i as int].dependencies[d as int]);
                        }
                        ok = false;
                    } else {
                        proof {
                            assert(nodes@[i as int].dependencies@[d as int]@ == ns[
                                i as int].dependencies[d as int]);
                        }
                        d += 1;
                    }
                }
                if ok {
                    pick = i;
                }
            }
            i += 1;
        }
        if pick < m {
            let ghost si0 = sorted_idx@;
            let ghost sn0 = views_of(sorted_names@);
            let ghost or0 = package_models(order@);
            done.set(pick, true);
            sorted_idx.push(pick);
            let nm = nodes[pick].name.clone();
            sorted_names.push(nm);
            let dup = nodes[pick].duplicate();
            order.push(dup);
            proof {
                let si1 = sorted_idx@;
                let sn1 = views_of(sorted_names@);
                let or1 = package_models(order@);
                assert(or1 =~= or0.push(ns[pick as int]));
                assert(sn1 =~= sn0.push(ns[pick as int].name));
                // the picked index was not yet sorted
                assert forall|a: int, b: int|
                    0 <= a < b < si1.len() implies si1[a] != si1[b] by {
                    if b == si1.len() - 1 {
                        if si1[a] == pick {
                            assert(done@[pick as int] == true);
                            assert(si0[a] == pick as usize);
                        }
                    }
                }
                // hm: done was updated; the old iff used old done
                assert forall|i2: int|
                    0 <= i2 < m implies ((#[trigger] done@[i2]) <==> exists|k: int|
                        0 <= k < si1.len() && si1[k] == i2) by {
                    if i2 == pick as int {
                        assert(si1[si1.len() - 1] == pick);
                        assert(done@[i2]);
                    } else {
                        if exists|k: int| 0 <= k < si1.len() && si1[k] == i2 {
                            let k = choose|k: int| 0 <= k < si1.len() && si1[k] == i2;
                            assert(k < si0.len());
                            assert(si0[k] == si1[k]);
                        }
                        if exists|k: int| 0 <= k < si0.len() && si0[k] == i2 {
                            let k = choose|k: int| 0 <= k < si0.len() && si0[k] == i2;
                            assert(si1[k] == i2);
                        }
                    }
                }
                // order stays topologically consistent: the new entry's
                // dependencies all bear earlier sorted names
                assert forall|k: int, d: int|
                    0 <= k < or1.len() && 0 <= d < or1[k].dependencies.len() implies name_in_prefix(
                    or1,
                    k,
                    (#[trigger] or1[k].dependencies[d]).name,
                ) by {
                    if k < or0.len() {
                        assert(or1[k] == or0[k]);
                        assert(topo_ordered(or0));
                        assert(name_in_prefix(or0, k, or0[k].dependencies[d].name));
                        let j = choose|j: int|
                            0 <= j < k && (#[trigger] or0[j]).name == or0[k].dependencies[d].name;
                        assert((or1[j]).name == or1[k].dependencies[d].name);
                    } else {
                        assert(or1[k] == ns[pick as int]);
                        assert(contains_str(sn0, ns[pick as int].dependencies[d].name));
                        let w = choose|w: int|
                            0 <= w < sn0.len() && sn0[w] == ns[pick as int].dependencies[d].name;
                        assert((or1[w]).name == or1[k].dependencies[d].name);
                    }
                }
                // the sorted list stays within bounds
                let sints = si1.map_values(|x: usize| x as int);
                assert forall|a: int, b: int|
                    0 <= a < b < sints.len() implies sints[a] != sints[b] by {
                    assert(si1[a] != si1[b]);
                }
                assert forall|a: int| 0 <= a < sints.len() implies 0 <= #[trigger] sints[a]
                    < m as int by {
                    assert(si1[a] < m);
                }
                lemma_distinct_bound(sints, m as int);
                assert(si1.len() <= m);
                assert(nm@ == ns[pick as int].name);
                assert forall|k: int|
                    0 <= k < order@.len() implies #[trigger] package_models(order@)[k] == ns[si1[
                    k] as int] by {
                    if k < or0.len() {
                        assert(or1[k] == or0[k]);
                        assert(si1[k] == si0[k]);
                    } else {
                        assert(or1[k] == ns[pick as int]);
                        assert(si1[k] == pick);
                    }
                }
                assert forall|k: int|
                    0 <= k < sn1.len() implies #[trigger] views_of(sorted_names@)[k]
                    == package_models(order@)[k].name by {
                    if k < sn0.len() {
                        assert(sn1[k] == sn0[k]);
                        assert(or1[k] == or0[k]);
                    } else {
                        assert(sn1[k] == ns[pick as int].name);
                        assert(or1[k] == ns[pick as int]);
                    }
                }
            }
        } else {
            progress = false;
        }
    }
    proof {
        let res = package_models(order@);
        assert(ns.len() == nodes@.len());
        assert forall|i: int| 0 <= i < res.len() implies model_in(#[trigger] res[i], ns) by {
            let a0 = sorted_idx@[i] as int;
            assert(0 <= a0 < ns.len());
            assert(ns[a0] == res[i]);
        }
        assert forall|i: int, j: int|
            0 <= i < j < res.len() implies (#[trigger] res[i]).name != (#[trigger] res[j]).name by {
            let a = sorted_idx@[i] as int;
            let b = sorted_idx@[j] as int;
            assert(res[i] == ns[a] && res[j] == ns[b]);
            assert(a != b);
        }
        assert forall|a: int|
            0 <= a < ns.len() && deps_satisfied(#[trigger] ns[a], res) implies name_in(
            res,
            ns[a].name,
        ) by {
            if !done@[a] {
                let d = choose|d: int|
                    0 <= d < ns[a].dependencies.len() && !contains_str(
                        views_of(sorted_names@),
                        ns[a].dependencies[d].name,
                    );
                assert(name_in(res, ns[a].dependencies[d].name));
                let j = choose|j: int|
                    0 <= j < res.len() && (#[trigger] res[j]).name == ns[a].dependencies[d].name;
                assert(views_of(sorted_names@)[j] == ns[a].dependencies[d].name);
                assert(contains_str(views_of(sorted_names@), ns[a].dependencies[d].name));
                assert(false);
            }
            let k = choose|k: int| 0 <= k < sorted_idx@.len() && sorted_idx@[k] == a;
            assert(res[k] == ns[a]);
        }
    }
    order
}

proof fn lemma_reaches_in_closure(
    resolver: &DependencyResolver,
    roots: Seq<Seq<char>>,
    ns: Seq<PackageModel>,
    n: Seq<char>,
    k: nat,
)
    requires
        resolver.spec_reaches(roots, n, k),
        resolver.versions_of(n).len() > 0,
        forall|a: int|
            0 <= a < ns.len() ==> resolver.versions_of((#[trigger] ns[a]).name).len() > 0 && ns[a]
                == resolver.versions_of(ns[a].name).last(),
        forall|a: int, d: int|
            0 <= a < ns.len() && 0 <= d < ns[a].dependencies.len() && !(
            #[trigger] ns[a].dependencies[d]).optional && resolver.versions_of(
                ns[a].dependencies[d].name,
            ).len() > 0 ==> name_in(ns, ns[a].dependencies[d].name),
        forall|k2: int|
            0 <= k2 < roots.len() && resolver.versions_of(#[trigger] roots[k2]).len() > 0
                ==> name_in(ns, roots[k2]),
    ensures
        name_in(ns, n),
    decreases k,
{
    if crate::text::contains_str(roots, n) {
        let i = choose|i: int| 0 <= i < roots.len() && roots[i] == n;
        assert(resolver.versions_of(roots[i]).len() > 0);
        assert(name_in(ns, roots[i]));
    } else {
        let (m, d): (Seq<char>, int) = choose|m: Seq<char>, d: int|
            {
                &&& resolver.spec_reaches(roots, m, (k - 1) as nat)
                &&& resolver.versions_of(m).len() > 0
                &&& 0 <= d < resolver.versions_of(m).last().dependencies.len()
                &&& (#[trigger] resolver.versions_of(m).last().dependencies[d]).name == n
                &&& !resolver.versions_of(m).last().dependencies[d].optional
            };
        lemma_reaches_in_closure(resolver, roots, ns, m, (k - 1) as nat);
        let a = choose|a: int| 0 <= a < ns.len() && (#[trigger] ns[a]).name == m;
        assert(ns[a] == resolver.versions_of(m).last());
        assert(ns[a].dependencies[d].name == n);
        assert(!ns[a].dependencies[d].optional);
        assert(name_in(ns, ns[a].dependencies[d].name));
    }
}

impl DependencyResolver {
    /// Compute an installation order for the root packages: the selected
    /// version of every reachable catalogued name, each entry after all the
    /// entries it depends on. A package whose dependencies can never all be
    /// ordered — one on a dependency cycle, or one depending on a name the
    /// catalog lacks — is left out of the order.
    pub fn resolve(&self, root_packages: &[String]) -> (r: Result<Vec<ResolvedPackage>, TpmgrError>)
        requires
            self.wf(),
        ensures
            r matches Ok(order) && ({
                let res = package_models(order@);
                let roots = views_of(root_packages@);
                // no name appears twice
                &&& (forall|i: int, j: int|
                    0 <= i < j < res.len() ==> (#[trigger] res[i]).name != (
                    #[trigger] res[j]).name)
                // every entry is the version the catalog selects for its name
                &&& (forall|i: int|
                    0 <= i < res.len() ==> self.versions_of((#[trigger] res[i]).name).len() > 0
                        && res[i] == self.versions_of(res[i].name).last())
                // prerequisites come first
                &&& topo_ordered(res)
                // a root with a catalogued selected version whose
                // dependencies are all ordered is itself ordered
                &&& (forall|k: int|
                    0 <= k < roots.len() && self.versions_of(#[trigger] roots[k]).len() > 0
                        && deps_satisfied(self.versions_of(roots[k]).last(), res) ==> name_in(
                        res,
                        roots[k],
                    ))
                // the same holds for every required dependency of an ordered
                // entry
                &&& (forall|i: int, d: int|
                    0 <= i < res.len() && 0 <= d < res[i].dependencies.len() && !(
                    #[trigger] res[i].dependencies[d]).optional && self.versions_of(
                        res[i].dependencies[d].name,
                    ).len() > 0 && deps_satisfied(
                        self.versions_of(res[i].dependencies[d].name).last(),
                        res,
                    ) ==> name_in(res, res[i].dependencies[d].name))
                // every catalogued name reachable from the roots is ordered,
                // or its selected version has some dependency that is not:
                // only a dependency chain leading out of the order (a cycle,
                // or a name the catalog lacks) keeps a package out
                &&& (forall|n: Seq<char>, k: nat|
                    #[trigger] self.spec_reaches(roots, n, k) && self.versions_of(n).len() > 0
                        ==> name_in(res, n) || (exists|d: int|
                        0 <= d < self.versions_of(n).last().dependencies.len() && !name_in(
                            res,
                            (#[trigger] self.versions_of(n).last().dependencies[d]).name,
                        )))
            }),
    {
        let nodes = self.closure_nodes(root_packages);
        let order = topo_sort(&nodes);
        proof {
            let ns = package_models(nodes@);
            let res = package_models(order@);
            let roots = views_of(root_packages@);
            assert forall|i: int|
                0 <= i < res.len() implies self.versions_of((#[trigger] res[i]).name).len() > 0
                && res[i] == self.versions_of(res[i].name).last() by {
                assert(model_in(res[i], ns));
                let a = choose|a: int| 0 <= a < ns.len() && (#[trigger] ns[a]) == res[i];
                assert(self.versions_of(ns[a].name).len() > 0);
            }
            assert forall|k: int|
                0 <= k < roots.len() && self.versions_of(#[trigger] roots[k]).len() > 0
                    && deps_satisfied(self.versions_of(roots[k]).last(), res) implies name_in(
                res,
                roots[k],
            ) by {
                assert(name_in(ns, roots[k]));
                let a = choose|a: int| 0 <= a < ns.len() && (#[trigger] ns[a]).name == roots[k];
                assert(ns[a] == self.versions_of(roots[k]).last());
                assert(deps_satisfied(ns[a], res));
                assert(name_in(res, ns[a].name));
            }
            assert forall|i: int, d: int|
                0 <= i < res.len() && 0 <= d < res[i].dependencies.len() && !(
            #[trigger] res[i].dependencies[d]).optional && self.versions_of(
                res[i].dependencies[d].name,
            ).len() > 0 && deps_satisfied(
                self.versions_of(res[i].dependencies[d].name).last(),
                res,
            ) implies name_in(res, res[i].dependencies[d].name) by {
                assert(model_in(res[i], ns));
                let a0 = choose|a: int| 0 <= a < ns.len() && (#[trigger] ns[a]) == res[i];
                assert(ns[a0].dependencies[d] == res[i].dependencies[d]);
                assert(name_in(ns, ns[a0].dependencies[d].name));
                let a1 = choose|a: int|
                    0 <= a < ns.len() && (#[trigger] ns[a]).name == res[i].dependencies[d].name;
                assert(ns[a1] == self.versions_of(res[i].dependencies[d].name).last());
                assert(deps_satisfied(ns[a1], res));
                assert(name_in(res, ns[a1].name));
            }
            assert forall|n: Seq<char>, k: nat|
                #[trigger] self.spec_reaches(roots, n, k) && self.versions_of(n).len() > 0 implies
                name_in(res, n) || (exists|d: int|
                0 <= d < self.versions_of(n).last().dependencies.len() && !name_in(
                    res,
                    (#[trigger] self.versions_of(n).last().dependencies[d]).name,
                )) by {
                lemma_reaches_in_closure(self, roots, ns, n, k);
                let a = choose|a: int| 0 <= a < ns.len() && (#[trigger] ns[a]).name == n;
                assert(ns[a] == self.versions_of(n).last());
                if !name_in(res, n) {
                    assert(!deps_satisfied(ns[a], res));
                    let d = choose|d: int|
                        0 <= d < ns[a].dependencies.len() && !name_in(
                            res,
                            (#[trigger] ns[a].dependencies[d]).name,
                        );
                    assert(0 <= d < self.versions_of(n).last().dependencies.len() && !name_in(
                        res,
                        self.versions_of(n).last().dependencies[d].name,
                    ));
                }
            }
        }
        Ok(order)
    }
}

} // verus!

verus! {

/// The name/version pairs recorded while scanning for conflicts.
pub open spec fn pair_views(v: Seq<(String, String)>) -> Seq<(Seq<char>, Seq<char>)> {
    v.map_values(|p: (String, String)| (p.0@, p.1@))
}

/// The version recorded first for `n`, if any.
pub open spec fn assoc_lookup(seen: Seq<(Seq<char>, Seq<char>)>, n: Seq<char>) -> Option<Seq<char>>
    decreases seen.len(),
{
    if seen.len() == 0 {
        None
    } else if seen[0].0 == n {
        Some(seen[0].1)
    } else {
        assoc_lookup(seen.drop_first(), n)
    }
}

/// The report line for one version clash.
pub open spec fn conflict_msg(n: Seq<char>, a: Seq<char>, b: Seq<char>) -> Seq<char> {
    "Version conflict for "@ + n + ": "@ + a + " vs "@ + b
}

/// The conflict report lines for a package list, given the versions already
/// recorded: each package clashing with the first version recorded under
/// its name yields one line.
pub open spec fn spec_conflicts(ms: Seq<PackageModel>, seen: Seq<(Seq<char>, Seq<char>)>) -> Seq<
    Seq<char>,
>
    decreases ms.len(),
{
    if ms.len() == 0 {
        Seq::empty()
    } else {
        match assoc_lookup(seen, ms[0].name) {
            Some(v) => (if v != ms[0].version {
                seq![conflict_msg(ms[0].name, v, ms[0].version)]
            } else {
                Seq::empty()
            }) + spec_conflicts(ms.drop_first(), seen),
            None => spec_conflicts(ms.drop_first(), seen.push((ms[0].name, ms[0].version))),
        }
    }
}

pub proof fn lemma_assoc_first(sn: Seq<(Seq<char>, Seq<char>)>, n: Seq<char>, i: int)
    requires
        0 <= i < sn.len(),
        sn[i].0 == n,
        forall|k: int| 0 <= k < i ==> (#[trigger] sn[k]).0 != n,
    ensures
        assoc_lookup(sn, n) == Some(sn[i].1),
    decreases i,
{
    if i > 0 {
        lemma_assoc_first(sn.drop_first(), n, i - 1);
    }
}

pub proof fn lemma_assoc_none(sn: Seq<(Seq<char>, Seq<char>)>, n: Seq<char>)
    requires
        forall|k: int| 0 <= k < sn.len() ==> (#[trigger] sn[k]).0 != n,
    ensures
        assoc_lookup(sn, n) is None,
    decreases sn.len(),
{
    if sn.len() > 0 {
        lemma_assoc_none(sn.drop_first(), n);
    }
}

/// Position of the first recorded pair for `n`.
fn assoc_find(seen: &Vec<(String, String)>, n: &str) -> (r: Option<usize>)
    ensures
        match r {
            Some(i) => i < seen@.len() && pair_views(seen@)[i as int].0 == n@ && assoc_lookup(
                pair_views(seen@),
                n@,
            ) == Some(pair_views(seen@)[i as int].1),
            None => assoc_lookup(pair_views(seen@), n@) is None,
        },
{
    let m: usize = seen.len();
    let mut i: usize = 0;
    while i < m
        invariant
            i <= m,
            m == seen@.len(),
            forall|k: int| 0 <= k < i ==> (#[trigger] pair_views(seen@)[k]).0 != n@,
        decreases m - i,
    {
        if str_eq(seen[i].0.as_str(), n) {
            proof {
                assert(pair_views(seen@)[i as int].0 == n@);
                lemma_assoc_first(pair_views(seen@), n@, i as int);
            }
            return Some(i);
        }
        proof {
            assert(pair_views(seen@)[i as int].0 == seen@[i as int].0@);
        }
        i += 1;
    }
    proof {
        lemma_assoc_none(pair_views(seen@), n@);
    }
    None
}

impl DependencyResolver {
    /// Report every package whose version differs from the first version
    /// seen under the same name, one line per clash, in list order.
    pub fn check_conflicts(&self, packages: &[ResolvedPackage]) -> (r: Vec<String>)
        ensures
            views_of(r@) == spec_conflicts(
                package_models(packages@),
                Seq::<(Seq<char>, Seq<char>)>::empty(),
            ),
    {
        let ghost full = package_models(packages@);
        let n: usize = packages.len();
        let mut out: Vec<String> = Vec::new();
        let mut seen: Vec<(String, String)> = Vec::new();
        let mut i: usize = 0;
        proof {
            assert(full.skip(0) =~= full);
            assert(views_of(out@) =~= Seq::<Seq<char>>::empty());
            assert(pair_views(seen@) =~= Seq::<(Seq<char>, Seq<char>)>::empty());
        }
        while i < n
            invariant
                i <= n,
                n == packages@.len(),
                full == package_models(packages@),
                spec_conflicts(full, Seq::<(Seq<char>, Seq<char>)>::empty()) == views_of(out@)
                    + spec_conflicts(full.skip(i as int), pair_views(seen@)),
            decreases n - i,
        {
            let ghost rest = full.skip(i as int);
            proof {
                assert(rest[0] == full[i as int]);
                assert(rest.drop_first() =~= full.skip(i + 1));
            }
            let p = vstd::slice::slice_index_get(packages, i);
            match assoc_find(&seen, p.name.as_str()) {
                Some(si) => {
                    let existing = &seen[si].1;
                    if !str_eq(existing.as_str(), p.version.as_str()) {
                        let msg = String::from_str("Version conflict for ").concat(
                            p.name.as_str(),
                        ).concat(": ").concat(existing.as_str()).concat(" vs ").concat(
                            p.version.as_str(),
                        );
                        proof {
                            assert(msg@ == conflict_msg(
                                rest[0].name,
                                pair_views(seen@)[si as int].1,
                                rest[0].version,
                            ));
                            assert(views_of(out@.push(msg)) =~= views_of(out@).push(msg@));
                            assert(spec_conflicts(rest, pair_views(seen@)) == seq![msg@]
                                + spec_conflicts(full.skip(i + 1), pair_views(seen@)));
                            assert(views_of(out@) + spec_conflicts(rest, pair_views(seen@))
                                =~= views_of(out@.push(msg)) + spec_conflicts(
                                full.skip(i + 1),
                                pair_views(seen@),
                            ));
                        }
                        out.push(msg);
                    } else {
                        proof {
                            assert(spec_conflicts(rest, pair_views(seen@)) =~= spec_conflicts(
                                full.skip(i + 1),
                                pair_views(seen@),
                            ));
                        }
                    }
                },
                None => {
                    let ghost sv0 = pair_views(seen@);
                    let pair = (p.name.clone(), p.version.clone());
                    proof {
                        assert(pair_views(seen@.push(pair)) =~= sv0.push(
                            (rest[0].name, rest[0].version),
                        ));
                        assert(spec_conflicts(rest, sv0) == spec_conflicts(
                            full.skip(i + 1),
                            sv0.push((rest[0].name, rest[0].version)),
                        ));
                    }
                    seen.push(pair);
                },
            }
            i += 1;
        }
        proof {
            assert(spec_conflicts(full.skip(n as int), pair_views(seen@))
                =~= Seq::<Seq<char>>::empty());
            assert(views_of(out@) =~= views_of(out@) + spec_conflicts(
                full.skip(n as int),
                pair_views(seen@),
            ));
        }
        out
    }
}

} // verus!
