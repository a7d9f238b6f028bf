//! The decisions of the hash-prefetch phase: which packages still need a
//! content hash, and how a fetched hash is recorded.
//!
//! Running the content-addressing fetch tool is a subprocess call and
//! lives outside the library; a fetch failure aborts the whole run there,
//! with no retry and no partial output.

use vstd::prelude::*;
use vstd::string::StringSliceAdditionalSpecFns;

use crate::bytes;
use crate::error::{Error, ErrorKind};
use crate::nargo::PkgId;
use crate::output::{Metadata, Package, PackageView, SriHash};

verus! {

/// Whether a package still needs its content hash: a default-registry
/// package without one.
pub open spec fn spec_needs_hash(p: PackageView) -> bool {
    p.source == Some("crates.io".spec_bytes()) && p.hash is None
}

/// The ids of the packages that still need a hash, in map order.
pub open spec fn spec_prefetch_ids(ps: Seq<(Seq<u8>, PackageView)>) -> Seq<Seq<u8>>
    decreases ps.len(),
{
    if ps.len() == 0 {
        Seq::empty()
    } else {
        let rest = spec_prefetch_ids(ps.drop_last());
        if spec_needs_hash(ps.last().1) {
            rest.push(ps.last().0)
        } else {
            rest
        }
    }
}

impl Metadata {
    /// The packages that still need a content hash.
    pub fn needs_prefetch(&self) -> (r: Vec<PkgId>)
        ensures
            r@.map_values(|p: PkgId| p@) == spec_prefetch_ids(self@.packages),
    {
        let ghost pv = self@.packages;
        let mut out: Vec<PkgId> = Vec::new();
        let mut i: usize = 0;
        proof {
            assert(out@.map_values(|p: PkgId| p@) =~= spec_prefetch_ids(pv.take(0)));
        }
        while i < self.packages.len()
            invariant
                i <= self.packages@.len(),
                pv == self@.packages,
                out@.map_values(|p: PkgId| p@) == spec_prefetch_ids(pv.take(i as int)),
            decreases self.packages@.len() - i,
        {
            proof {
                assert(pv[i as int] == (self.packages@[i as int].0@, self.packages@[i as int].1@));
                assert(pv.take(i + 1 as int).drop_last() =~= pv.take(i as int));
                assert(pv.take(i + 1 as int).last() == pv[i as int]);
            }
            let p = &self.packages[i].1;
            let mut needs = false;
            match &p.source {
                Some(s) => {
                    if s.is_crates_io() && p.hash.is_none() {
                        needs = true;
                    }
                },
                None => (),
            }
            if needs {
                let ghost pre = out@;
                let id = PkgId(bytes::copy_range(
                    self.packages[i].0.0.as_slice(),
                    0,
                    self.packages[i].0.0.len(),
                ));
                let ghost idv = id@;
                out.push(id);
                proof {
                    assert(out@ == pre.push(out@[out@.len() - 1]));
                    assert(out@.map_values(|p: PkgId| p@) =~= pre.map_values(|p: PkgId| p@).push(
                        idv,
                    ));
                    assert(idv =~= pv[i as int].0);
                }
            }
            i += 1;
        }
        proof {
            assert(pv.take(pv.len() as int) =~= pv);
        }
        out
    }

    /// Record one fetched hash on the package that owns the id. Fails, as
    /// an internal inconsistency, exactly where no package has the id or
    /// the package did not need a hash.
    pub fn set_prefetched_hash(self, id: &[u8], hash: Vec<u8>) -> (r: Result<Metadata, Error>)
        ensures
            match r {
                Ok(n) => {
                    &&& n@.workspace_members == self@.workspace_members
                    &&& n@.workspace_default_members == self@.workspace_default_members
                    &&& n@.packages.len() == self@.packages.len()
                    &&& exists|i: int|
                        0 <= i < self@.packages.len() && (#[trigger] self@.packages[i]).0 == id@
                            && spec_needs_hash(self@.packages[i].1) && n@.packages == self@
                            .packages.update(
                            i,
                            (
                                self@.packages[i].0,
                                PackageView { hash: Some(hash@), ..self@.packages[i].1 },
                            ),
                        )
                },
                Err(e) => (forall|i: int|
                    0 <= i < self@.packages.len() && (#[trigger] self@.packages[i]).0 == id@
                        ==> !spec_needs_hash(self@.packages[i].1)) && e.kind
                    == ErrorKind::Inconsistent,
            },
    {
        let ghost ov = self@;
        let Metadata { packages, workspace_members, workspace_default_members } = self;
        let mut rest = packages;
        let mut done: Vec<(PkgId, Package)> = Vec::new();
        let ghost opk = ov.packages;
        proof {
            assert(rest@.map_values(|e: (PkgId, Package)| (e.0@, e.1@)) =~= opk.skip(0));
        }
        let ghost mut i: int = 0;
        let mut found = false;
        while rest.len() > 0
            invariant
                0 <= i <= opk.len(),
                rest@.map_values(|e: (PkgId, Package)| (e.0@, e.1@)) == opk.skip(i),
                rest@.len() == opk.len() - i,
                done@.len() == i,
                found ==> exists|x: int|
                    0 <= x < i && (#[trigger] opk[x]).0 == id@ && spec_needs_hash(opk[x].1) && done@
                        .map_values(|e: (PkgId, Package)| (e.0@, e.1@)) == opk.take(i).update(
                        x,
                        (opk[x].0, PackageView { hash: Some(hash@), ..opk[x].1 }),
                    ),
                !found ==> done@.map_values(|e: (PkgId, Package)| (e.0@, e.1@)) == opk.take(i)
                    && (forall|x: int|
                    0 <= x < i && (#[trigger] opk[x]).0 == id@ ==> !spec_needs_hash(opk[x].1)),
            decreases rest@.len(),
        {
            let ghost pre = rest@;
            let (key, pkg) = rest.remove(0);
            proof {
                assert((key@, pkg@) == pre.map_values(|e: (PkgId, Package)| (e.0@, e.1@))[0]);
                assert(opk.skip(i)[0] == opk[i]);
                assert((key@, pkg@) == opk[i]);
                assert(rest@.map_values(|e: (PkgId, Package)| (e.0@, e.1@)) =~= opk.skip(i + 1))
                    by {
                    assert forall|j: int| #![trigger rest@[j]] 0 <= j < rest@.len() implies rest@
                        .map_values(|e: (PkgId, Package)| (e.0@, e.1@))[j] == opk.skip(i + 1)[
                    j] by {
                        assert(rest@[j] == pre.remove(0)[j]);
                        assert(pre.remove(0)[j] == pre[j + 1]);
                        assert(pre.map_values(|e: (PkgId, Package)| (e.0@, e.1@))[j + 1] == (pre[j
                            + 1].0@, pre[j + 1].1@));
                        assert(opk.skip(i)[j + 1] == opk[i + j + 1]);
                        assert(opk.skip(i + 1)[j] == opk[i + j + 1]);
                    }
                }
            }
            let mut take_it = false;
            if !found && bytes::bytes_eq(key.0.as_slice(), id) {
                let mut needs = false;
                match &pkg.source {
                    Some(s) => {
                        if s.is_crates_io() && pkg.hash.is_none() {
                            needs = true;
                        }
                    },
                    None => (),
                }
                if needs {
                    take_it = true;
                }
            }
            let ghost done_pre = done@;
            let ghost dm_pre = done@.map_values(|e: (PkgId, Package)| (e.0@, e.1@));
            if take_it {
                let h = SriHash(bytes::copy_range(hash.as_slice(), 0, hash.len()));
                let Package {
                    name,
                    version,
                    source,
                    hash: _,
                    path,
                    edition,
                    rust_version,
                    default_run,
                    links,
                    features,
                    deps,
                    targets,
                } = pkg;
                let np = Package {
                    name,
                    version,
                    source,
                    hash: Some(h),
                    path,
                    edition,
                    rust_version,
                    default_run,
                    links,
                    features,
                    deps,
                    targets,
                };
                proof {
                    assert(np@ =~~= PackageView { hash: Some(hash@), ..opk[i].1 });
                }
                let ghost npv = np@;
                done.push((key, np));
                found = true;
                proof {
                    assert(done@ == done_pre.push(done@[done@.len() - 1]));
                    assert(done@.map_values(|e: (PkgId, Package)| (e.0@, e.1@)) =~= dm_pre.push(
                        (key@, npv),
                    ));
                    assert(opk.take(i + 1).update(
                        i,
                        (opk[i].0, PackageView { hash: Some(hash@), ..opk[i].1 }),
                    ) =~= opk.take(i).push(
                        (opk[i].0, PackageView { hash: Some(hash@), ..opk[i].1 }),
                    ));
                    assert(done@.map_values(|e: (PkgId, Package)| (e.0@, e.1@)) =~= opk.take(
                        i + 1,
                    ).update(i, (opk[i].0, PackageView { hash: Some(hash@), ..opk[i].1 })));
                }
            } else {
                let ghost was_found = found;
                let ghost kv = key@;
                let ghost pv2 = pkg@;
                done.push((key, pkg));
                proof {
                    assert(done@ == done_pre.push(done@[done@.len() - 1]));
                    assert(done@.map_values(|e: (PkgId, Package)| (e.0@, e.1@)) =~= dm_pre.push(
                        (kv, pv2),
                    ));
                    assert((kv, pv2) == opk[i]);
                    if was_found {
                        let x = choose|x: int|
                            0 <= x < i && (#[trigger] opk[x]).0 == id@ && spec_needs_hash(opk[x].1)
                                && dm_pre == opk.take(i).update(
                                x,
                                (opk[x].0, PackageView { hash: Some(hash@), ..opk[x].1 }),
                            );
                        assert(done@.map_values(|e: (PkgId, Package)| (e.0@, e.1@)) =~= opk.take(
                            i + 1,
                        ).update(x, (opk[x].0, PackageView { hash: Some(hash@), ..opk[x].1 })));
                    } else {
                        assert(dm_pre == opk.take(i));
                        assert(done@.map_values(|e: (PkgId, Package)| (e.0@, e.1@)) =~= opk.take(
                            i + 1,
                        ));
                    }
                }
            }
            proof {
                i = i + 1;
            }
        }
        proof {
            assert(opk.take(opk.len() as int) =~= opk);
        }
        if !found {
            return Err(Error::from_display(
                "no package needed the fetched hash",
            ).with_kind(ErrorKind::Inconsistent));
        }
        let out = Metadata { packages: done, workspace_members, workspace_default_members };
        Ok(out)
    }
}

} // verus!
