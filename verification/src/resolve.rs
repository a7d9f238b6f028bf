//! The cross-check's feature-activation view: what a build-unit report
//! says each package was built with. It shares the id canonicalization
//! with the graph engine but none of the reconciliation.

use vstd::prelude::*;
use vstd::string::StringSliceAdditionalSpecFns;

use crate::bytes;
use crate::error::{Error, ErrorKind};
use crate::nargo::{spec_canon_pkg_id, PkgId};
use crate::order::{sort_by_le, sorted_by_le, TotalOrdered};

verus! {

/// Which build the features were activated for: the build scripts' own
/// compilation, or the package's.
#[derive(Copy, Clone, Debug, PartialEq, Eq, Structural)]
pub enum FeatFor {
    Build,
    Normal,
}

impl FeatFor {
    /// The fixed order of the two activations.
    pub open spec fn rank(self) -> int {
        match self {
            FeatFor::Build => 0,
            FeatFor::Normal => 1,
        }
    }

    pub fn rank_exec(&self) -> (r: u8)
        ensures
            r as int == self.rank(),
    {
        match self {
            FeatFor::Build => 0,
            FeatFor::Normal => 1,
        }
    }

    /// The serialized name of this activation.
    pub open spec fn spec_str_bytes(self) -> Seq<u8> {
        match self {
            FeatFor::Build => "build".spec_bytes(),
            FeatFor::Normal => "normal".spec_bytes(),
        }
    }

    pub fn as_str(&self) -> (r: &'static str)
        ensures
            r.spec_bytes() == self.spec_str_bytes(),
    {
        match self {
            FeatFor::Build => "build",
            FeatFor::Normal => "normal",
        }
    }
}

/// The features one package has active for one kind of build.
#[derive(Clone, Debug)]
pub struct PkgFeatForActivation {
    /// The active feature names, in strict byte order.
    pub feats: Vec<Vec<u8>>,
}

/// One build target of a unit: only its kind list matters here.
#[derive(Clone, Debug)]
pub struct UnitTarget {
    pub kind: Vec<Vec<u8>>,
}

/// One unit of a build-unit report.
#[derive(Clone, Debug)]
pub struct Unit {
    pub pkg_id: Vec<u8>,
    pub target: UnitTarget,
    pub platform: Option<Vec<u8>>,
    pub mode: Vec<u8>,
    pub features: Vec<Vec<u8>>,
}

/// A build-unit report.
#[derive(Clone, Debug)]
pub struct UnitGraph {
    pub version: u64,
    pub units: Vec<Unit>,
}

/// One row of the activation view.
#[derive(Clone, Debug)]
pub struct Activation {
    pub id: PkgId,
    pub feat_for: FeatFor,
    pub activation: PkgFeatForActivation,
}

/// Rows sort by package id, then by activation kind.
impl TotalOrdered for Activation {
    open spec fn le(self, other: Self) -> bool {
        ||| crate::bytes::lex_lt(self.id@, other.id@)
        ||| (self.id@ == other.id@ && self.feat_for.rank() <= other.feat_for.rank())
    }

    proof fn lemma_le_total(a: Self, b: Self) {
        crate::bytes::lemma_lex_le_facts(a.id@, b.id@, b.id@);
    }

    proof fn lemma_le_trans(a: Self, b: Self, c: Self) {
        crate::bytes::lemma_lex_le_facts(a.id@, b.id@, c.id@);
        crate::bytes::lemma_lex_le_facts(b.id@, a.id@, a.id@);
        crate::bytes::lemma_lex_le_facts(c.id@, b.id@, b.id@);
    }

    fn le_exec(&self, other: &Self) -> (r: bool) {
        let le = crate::bytes::lex_le_exec(self.id.0.as_slice(), other.id.0.as_slice());
        let eq = bytes::bytes_eq(self.id.0.as_slice(), other.id.0.as_slice());
        if le && !eq {
            true
        } else if eq {
            self.feat_for.rank_exec() <= other.feat_for.rank_exec()
        } else {
            false
        }
    }
}

/// Whether a unit contributes to the activation view: it must be a
/// compilation of a library- or binary-kind target, not a test, bench,
/// example or build-script target.
pub open spec fn spec_unit_counts(u: Unit) -> bool {
    &&& u.mode@ == "build".spec_bytes()
    &&& !(u.target.kind@.len() == 1 && (u.target.kind@[0]@ == "bench".spec_bytes()
        || u.target.kind@[0]@ == "custom-build".spec_bytes() || u.target.kind@[0]@
        == "example".spec_bytes() || u.target.kind@[0]@ == "test".spec_bytes()))
}

/// Which activation kind a unit's platform denotes: none is a build-time
/// unit, the host triple a normal one, anything else is unexpected.
pub open spec fn spec_unit_feat_for(u: Unit, host: Seq<u8>) -> Option<FeatFor> {
    match u.platform {
        None => Some(FeatFor::Build),
        Some(p) => if p@ == host {
            Some(FeatFor::Normal)
        } else {
            None
        },
    }
}

/// Two byte-string lists with the same members.
pub open spec fn spec_same_members(a: Seq<Seq<u8>>, b: Seq<Seq<u8>>) -> bool {
    forall|s: Seq<u8>| a.contains(s) <==> b.contains(s)
}

/// A strictly ascending byte-string list.
pub open spec fn spec_strictly_sorted(a: Seq<Seq<u8>>) -> bool {
    forall|i: int, j: int| 0 <= i < j < a.len() ==> crate::bytes::lex_lt(#[trigger] a[i], #[trigger] a[j])
}

/// A row comes from some contributing unit of the report.
pub open spec fn spec_row_traceable(
    row: Activation,
    units: Seq<Unit>,
    host: Seq<u8>,
    root: Seq<u8>,
) -> bool {
    exists|j: int|
        0 <= j < units.len() && spec_unit_counts(#[trigger] units[j]) && spec_row_for_unit(
            row,
            units[j],
            host,
            root,
        )
}

/// A contributing unit has a row that speaks for it.
pub open spec fn spec_unit_spoken_for(
    u: Unit,
    rows: Seq<Activation>,
    host: Seq<u8>,
    root: Seq<u8>,
) -> bool {
    exists|x: int| 0 <= x < rows.len() && spec_row_for_unit(#[trigger] rows[x], u, host, root)
}

/// One row speaks for one unit: same compact id, same activation kind,
/// and the unit's feature set in strict order.
#[verifier::opaque]
pub open spec fn spec_row_for_unit(row: Activation, u: Unit, host: Seq<u8>, root: Seq<u8>) -> bool {
    &&& Some(row.id@) == spec_canon_pkg_id(u.pkg_id@, root)
    &&& Some(row.feat_for) == spec_unit_feat_for(u, host)
    &&& spec_strictly_sorted(row.activation.feats.deep_view())
    &&& spec_same_members(row.activation.feats.deep_view(), u.features.deep_view())
}

/// Two contributing units disagree on one (package, activation kind)
/// pair's feature set.
#[verifier::opaque]
pub open spec fn spec_units_conflict(units: Seq<Unit>, host: Seq<u8>, root: Seq<u8>) -> bool {
    exists|j1: int, j2: int|
        0 <= j1 < units.len() && 0 <= j2 < units.len() && spec_unit_counts(#[trigger] units[j1])
            && spec_unit_counts(#[trigger] units[j2]) && spec_canon_pkg_id(units[j1].pkg_id@, root)
            == spec_canon_pkg_id(units[j2].pkg_id@, root) && spec_unit_feat_for(units[j1], host)
            == spec_unit_feat_for(units[j2], host) && !spec_same_members(
            units[j1].features.deep_view(),
            units[j2].features.deep_view(),
        )
}

/// Everything building the activation view needs of the report: every
/// contributing unit's id compacts, none was built for a foreign triple,
/// and no two contributing units disagree on one pair's feature set.
#[verifier::opaque]
pub open spec fn spec_view_ok(units: Seq<Unit>, host: Seq<u8>, root: Seq<u8>) -> bool {
    &&& forall|j: int|
        0 <= j < units.len() && spec_unit_counts(#[trigger] units[j]) ==> spec_canon_pkg_id(
            units[j].pkg_id@,
            root,
        ) is Some
    &&& forall|j: int|
        0 <= j < units.len() && spec_unit_counts(#[trigger] units[j]) ==> spec_unit_feat_for(
            units[j],
            host,
        ) is Some
    &&& !spec_units_conflict(units, host, root)
}

impl UnitGraph {
    /// The compact id of every unit's verbose package id.
    pub fn build_pkg_id_map(&self, workspace_root: &[u8]) -> (r: Result<Vec<(Vec<u8>, PkgId)>, Error>)
        ensures
            match r {
                Ok(m) => m@.len() == self.units@.len() && forall|i: int|
                    0 <= i < m@.len() ==> (#[trigger] m@[i]).0@ == self.units@[i].pkg_id@ && Some(
                        m@[i].1@,
                    ) == spec_canon_pkg_id(self.units@[i].pkg_id@, workspace_root@),
                Err(e) => (exists|i: int|
                    0 <= i < self.units@.len() && spec_canon_pkg_id(
                        (#[trigger] self.units@[i]).pkg_id@,
                        workspace_root@,
                    ) is None) && e.kind == ErrorKind::Inconsistent,
            },
    {
        let mut out: Vec<(Vec<u8>, PkgId)> = Vec::new();
        let mut i: usize = 0;
        while i < self.units.len()
            invariant
                i <= self.units@.len(),
                out@.len() == i,
                forall|j: int|
                    0 <= j < i ==> (#[trigger] out@[j]).0@ == self.units@[j].pkg_id@ && Some(
                        out@[j].1@,
                    ) == spec_canon_pkg_id(self.units@[j].pkg_id@, workspace_root@),
            decreases self.units@.len() - i,
        {
            let key = bytes::copy_range(self.units[i].pkg_id.as_slice(), 0, self.units[i].pkg_id.len());
            let id = match PkgId::try_from_cargo_pkg_id_spec(
                self.units[i].pkg_id.as_slice(),
                workspace_root,
            ) {
                Ok(p) => p,
                Err(e) => {
                    return Err(e);
                },
            };
            out.push((key, id));
            i += 1;
        }
        Ok(out)
    }

    /// The activation view of the report: one row per contributing
    /// (package, activation kind) pair, in row order; every contributing
    /// unit is spoken for by a row and every row speaks for some
    /// contributing unit. Fails exactly where an id cannot be compacted,
    /// a unit was built for an unexpected target triple, or two units
    /// disagree on one pair's feature set.
    #[verifier::rlimit(100)]
    /// The activation view of the report: one row per contributing
    /// (package, activation kind) pair, in row order; every contributing
    /// unit is spoken for by a row and every row speaks for some
    /// contributing unit. Fails exactly where an id cannot be compacted,
    /// a unit was built for an unexpected target triple, or two units
    /// disagree on one pair's feature set.
    #[verifier::rlimit(100)]
    #[verifier::spinoff_prover]
    pub fn build_resolve_features(&self, host_target: &[u8], workspace_root: &[u8]) -> (r: Result<
        Vec<Activation>,
        Error,
    >)
        ensures
            match r {
                Ok(rows) => {
                    &&& spec_view_ok(self.units@, host_target@, workspace_root@)
                    &&& sorted_by_le(rows@)
                    &&& forall|x: int|
                        0 <= x < rows@.len() ==> spec_row_traceable(
                            #[trigger] rows@[x],
                            self.units@,
                            host_target@,
                            workspace_root@,
                        )
                    &&& forall|j: int|
                        0 <= j < self.units@.len() && spec_unit_counts(#[trigger] self.units@[j])
                            ==> spec_unit_spoken_for(
                            self.units@[j],
                            rows@,
                            host_target@,
                            workspace_root@,
                        )
                },
                Err(e) => !spec_view_ok(self.units@, host_target@, workspace_root@) && (e.kind
                    == ErrorKind::Parse || e.kind == ErrorKind::Inconsistent),
            },
    {
        let ghost host = host_target@;
        let ghost root = workspace_root@;
        let rows = match collect_rows(&self.units, host_target, workspace_root) {
            Ok(rows) => rows,
            Err(e) => {
                return Err(e);
            },
        };
        // Rows in the fixed order.
        let ghost before = rows@;
        let rows = sort_by_le(rows);
        proof {
            lemma_permutation_keeps_view(self.units@, before, rows@, host, root);
        }
        // Rows for the same pair must carry the same feature set.
        match check_row_conflicts(&rows) {
            Ok(()) => (),
            Err(e) => {
                proof {
                    lemma_disagreeing_rows_are_a_conflict(self.units@, rows@, host, root);
                    reveal(spec_view_ok);
                    assert(!spec_view_ok(self.units@, host, root));
                }
                return Err(e);
            },
        }
        proof {
            lemma_agreeing_rows_refute_conflicts(self.units@, rows@, host, root);
            reveal(spec_view_ok);
            assert(spec_view_ok(self.units@, host, root));
        }
        Ok(rows)
    }
}

/// Rows for one (package, activation kind) pair must agree on the
/// feature list; the rows are already in the fixed order, so such rows
/// sit next to each other. On success every two equal-pair rows carry the
/// same list; on failure two of them differ.
fn check_row_conflicts(rows: &Vec<Activation>) -> (r: Result<(), Error>)
    requires
        sorted_by_le(rows@),
    ensures
        match r {
            Ok(()) => forall|x1: int, x2: int|
                0 <= x1 < x2 < rows@.len() && (#[trigger] rows@[x1]).id@ == (
                #[trigger] rows@[x2]).id@ && rows@[x1].feat_for == rows@[x2].feat_for ==> rows@[
                x1
            ].activation.feats.deep_view() == rows@[x2].activation.feats.deep_view(),
            Err(e) => (exists|x1: int, x2: int|
                0 <= x1 < x2 < rows@.len() && (#[trigger] rows@[x1]).id@ == (
                #[trigger] rows@[x2]).id@ && rows@[x1].feat_for == rows@[x2].feat_for && rows@[
                x1
            ].activation.feats.deep_view() != rows@[x2].activation.feats.deep_view()) && e.kind
                == ErrorKind::Inconsistent,
        },
{
    let mut k: usize = 1;
    while k < rows.len()
        invariant
            rows@.len() > 0 ==> 1 <= k,
            sorted_by_le(rows@),
            forall|m: int|
                0 < m < k && m < rows@.len() && (#[trigger] rows@[m - 1]).id@ == rows@[m].id@
                    && rows@[m - 1].feat_for == rows@[m].feat_for ==> rows@[m
                    - 1].activation.feats.deep_view() == rows@[m].activation.feats.deep_view(),
        decreases rows@.len() - k,
    {
        let same_id = bytes::bytes_eq(rows[k - 1].id.0.as_slice(), rows[k].id.0.as_slice());
        let same_ff = rows[k - 1].feat_for.rank_exec() == rows[k].feat_for.rank_exec();
        if same_id && same_ff {
            if !strs_eq(&rows[k - 1].activation.feats, &rows[k].activation.feats) {
                proof {
                    assert(rows@[k - 1].feat_for == rows@[k as int].feat_for);
                }
                return Err(Error::from_display(
                    "two units disagree on one package's active features",
                ).with_kind(ErrorKind::Inconsistent));
            }
        }
        proof {
            if rows@[k - 1].id@ == rows@[k as int].id@ && rows@[k - 1].feat_for == rows@[
                k as int
            ].feat_for {
                assert(rows@[k - 1].activation.feats.deep_view() == rows@[
                    k as int
                ].activation.feats.deep_view());
            }
        }
        k += 1;
    }
    proof {
        assert forall|x1: int, x2: int|
            0 <= x1 < x2 < rows@.len() && (#[trigger] rows@[x1]).id@ == (#[trigger] rows@[x2]).id@
                && rows@[x1].feat_for == rows@[x2].feat_for implies rows@[
            x1
        ].activation.feats.deep_view() == rows@[x2].activation.feats.deep_view() by {
            lemma_equal_pair_span(rows@, x1, x2);
        }
    }
    Ok(())
}

/// Between two equal-pair rows of an ordered list, every row carries the
/// same pair, so adjacent agreement spans the whole run.
proof fn lemma_equal_pair_span(rows: Seq<Activation>, x1: int, x2: int)
    requires
        sorted_by_le(rows),
        forall|m: int|
            0 < m < rows.len() && (#[trigger] rows[m - 1]).id@ == rows[m].id@ && rows[m
                - 1].feat_for == rows[m].feat_for ==> rows[m - 1].activation.feats.deep_view()
                == rows[m].activation.feats.deep_view(),
        0 <= x1 < x2 < rows.len(),
        rows[x1].id@ == rows[x2].id@,
        rows[x1].feat_for == rows[x2].feat_for,
    ensures
        rows[x1].activation.feats.deep_view() == rows[x2].activation.feats.deep_view(),
    decreases x2 - x1,
{
    if x1 + 1 == x2 {
        assert(rows[x2 - 1].activation.feats.deep_view() == rows[x2].activation.feats.deep_view());
    } else {
        let m = x1 + 1;
        assert(TotalOrdered::le(rows[x1], rows[m]));
        assert(TotalOrdered::le(rows[m], rows[x2]));
        crate::bytes::lemma_lex_le_facts(rows[x1].id@, rows[m].id@, rows[x2].id@);
        crate::bytes::lemma_lex_le_facts(rows[m].id@, rows[x1].id@, rows[x1].id@);
        assert(rows[m].id@ == rows[x1].id@);
        assert(rows[m].feat_for == rows[x1].feat_for);
        assert(rows[m - 1].id@ == rows[m].id@ && rows[m - 1].feat_for == rows[m].feat_for);
        assert(rows[m - 1].activation.feats.deep_view() == rows[m].activation.feats.deep_view());
        assert(rows[x1].activation.feats.deep_view() == rows[m].activation.feats.deep_view());
        lemma_equal_pair_span(rows, m, x2);
    }
}

/// Two strictly ascending lists with the same members are the same list.
proof fn lemma_sorted_unique_members_equal(a: Seq<Seq<u8>>, b: Seq<Seq<u8>>)
    requires
        spec_strictly_sorted(a),
        spec_strictly_sorted(b),
        spec_same_members(a, b),
    ensures
        a == b,
    decreases a.len(),
{
    if a.len() == 0 {
        if b.len() > 0 {
            assert(b.contains(b[0]));
            assert(a.contains(b[0]));
        }
        assert(a =~= b);
    } else if b.len() == 0 {
        assert(a.contains(a[0]));
        assert(b.contains(a[0]));
    } else {
        // The heads are each list's least member, so they are equal.
        assert(a.contains(a[0]));
        assert(b.contains(b[0]));
        assert(b.contains(a[0]));
        assert(a.contains(b[0]));
        let ia = choose|ia: int| 0 <= ia < a.len() && a[ia] == b[0];
        let ib = choose|ib: int| 0 <= ib < b.len() && b[ib] == a[0];
        crate::bytes::lemma_lex_le_facts(a[0], b[0], a[0]);
        if a[0] != b[0] {
            if ia > 0 {
                assert(crate::bytes::lex_lt(a[0], a[ia]));
            }
            if ib > 0 {
                assert(crate::bytes::lex_lt(b[0], b[ib]));
            }
            assert(ia == 0 || ib == 0 || (crate::bytes::lex_le(a[0], b[0]) && crate::bytes::lex_le(
                b[0],
                a[0],
            )));
            assert(false);
        }
        // The tails again have the same members.
        let at = a.skip(1);
        let bt = b.skip(1);
        assert forall|s: Seq<u8>| at.contains(s) <==> bt.contains(s) by {
            if at.contains(s) {
                let w = choose|w: int| 0 <= w < at.len() && at[w] == s;
                assert(a[w + 1] == s);
                assert(crate::bytes::lex_lt(a[0], a[w + 1]));
                assert(a.contains(s)) by {
                    assert(a[w + 1] == s);
                }
                assert(b.contains(s));
                let z = choose|z: int| 0 <= z < b.len() && b[z] == s;
                assert(z != 0) by {
                    if z == 0 {
                        assert(s == b[0]);
                        assert(s == a[0]);
                    }
                }
                assert(bt[z - 1] == s);
                assert(bt.contains(s));
            }
            if bt.contains(s) {
                let w = choose|w: int| 0 <= w < bt.len() && bt[w] == s;
                assert(b[w + 1] == s);
                assert(crate::bytes::lex_lt(b[0], b[w + 1]));
                assert(b.contains(s)) by {
                    assert(b[w + 1] == s);
                }
                assert(a.contains(s));
                let z = choose|z: int| 0 <= z < a.len() && a[z] == s;
                assert(z != 0) by {
                    if z == 0 {
                        assert(s == a[0]);
                        assert(s == b[0]);
                    }
                }
                assert(at[z - 1] == s);
                assert(at.contains(s));
            }
        }
        assert forall|i: int, j: int| 0 <= i < j < at.len() implies crate::bytes::lex_lt(
            #[trigger] at[i],
            #[trigger] at[j],
        ) by {
            assert(at[i] == a[i + 1]);
            assert(at[j] == a[j + 1]);
        }
        assert forall|i: int, j: int| 0 <= i < j < bt.len() implies crate::bytes::lex_lt(
            #[trigger] bt[i],
            #[trigger] bt[j],
        ) by {
            assert(bt[i] == b[i + 1]);
            assert(bt[j] == b[j + 1]);
        }
        lemma_sorted_unique_members_equal(at, bt);
        assert(a =~= b) by {
            assert forall|i: int| 0 <= i < a.len() implies a[i] == b[i] by {
                if i > 0 {
                    assert(at[i - 1] == a[i]);
                    assert(bt[i - 1] == b[i]);
                }
            }
        }
    }
}

/// One row per contributing unit of the report, in report order.
#[verifier::rlimit(100)]
fn collect_rows(units: &Vec<Unit>, host_target: &[u8], workspace_root: &[u8]) -> (r: Result<
    Vec<Activation>,
    Error,
>)
    ensures
        match r {
            Ok(rows) => {
                &&& forall|x: int|
                    0 <= x < rows@.len() ==> spec_row_traceable(
                        #[trigger] rows@[x],
                        units@,
                        host_target@,
                        workspace_root@,
                    )
                &&& forall|j: int|
                    0 <= j < units@.len() && spec_unit_counts(#[trigger] units@[j])
                        ==> spec_unit_spoken_for(units@[j], rows@, host_target@, workspace_root@)
                &&& forall|j: int|
                    0 <= j < units@.len() && spec_unit_counts(#[trigger] units@[j])
                        ==> spec_canon_pkg_id(units@[j].pkg_id@, workspace_root@) is Some
                        && spec_unit_feat_for(units@[j], host_target@) is Some
            },
            Err(e) => !spec_view_ok(units@, host_target@, workspace_root@) && (e.kind
                == ErrorKind::Parse || e.kind == ErrorKind::Inconsistent),
        },
{
    let ghost host = host_target@;
    let ghost root = workspace_root@;
    let mut rows: Vec<Activation> = Vec::new();
    let mut i: usize = 0;
    while i < units.len()
        invariant
            i <= units@.len(),
            host == host_target@,
            root == workspace_root@,
            forall|x: int|
                0 <= x < rows@.len() ==> spec_row_traceable(#[trigger] rows@[x], units@, host, root),
            forall|j: int|
                0 <= j < i && spec_unit_counts(#[trigger] units@[j]) ==> spec_unit_spoken_for(
                    units@[j],
                    rows@,
                    host,
                    root,
                ),
            forall|j: int|
                0 <= j < i && spec_unit_counts(#[trigger] units@[j]) ==> spec_canon_pkg_id(
                    units@[j].pkg_id@,
                    root,
                ) is Some && spec_unit_feat_for(units@[j], host) is Some,
        decreases units@.len() - i,
    {
        let u = &units[i];
        let counts = unit_counts(u);
        if counts {
            let id = match PkgId::try_from_cargo_pkg_id_spec(u.pkg_id.as_slice(), workspace_root) {
                Ok(p) => p,
                Err(e) => {
                    proof {
                        reveal(spec_view_ok);
                        assert(*u == units@[i as int]);
                        assert(spec_unit_counts(units@[i as int]));
                        assert(!spec_view_ok(units@, host, root));
                    }
                    return Err(e);
                },
            };
            let feat_for = match &u.platform {
                None => FeatFor::Build,
                Some(p) => {
                    if bytes::bytes_eq(p.as_slice(), host_target) {
                        FeatFor::Normal
                    } else {
                        proof {
                            reveal(spec_view_ok);
                            assert(*u == units@[i as int]);
                            assert(spec_unit_counts(units@[i as int]));
                            assert(spec_unit_feat_for(units@[i as int], host) is None);
                            assert(!spec_view_ok(units@, host, root));
                        }
                        return Err(Error::from_display(
                            "a unit was built for an unexpected target triple",
                        ).with_kind(ErrorKind::Inconsistent));
                    }
                },
            };
            let copied = crate::output::copy_bytes_list(&u.features);
            let ghost copied_pre = copied@;
            let ghost copied_dv = copied.deep_view();
            let feats_sorted = sort_by_le(copied);
            let feats = dedup_sorted(&feats_sorted);
            proof {
                lemma_multiset_deep_members(feats_sorted@, copied_pre);
                assert(deep_strs(copied_pre) =~= copied_dv) by {
                    assert forall|j: int| 0 <= j < copied_pre.len() implies deep_strs(
                        copied_pre,
                    )[j] == copied_dv[j] by {
                        assert(copied_pre[j].deep_view() =~= copied_pre[j]@);
                    }
                }
                assert(feats_sorted.deep_view() =~= deep_strs(feats_sorted@)) by {
                    assert forall|j: int| 0 <= j < feats_sorted@.len() implies feats_sorted
                        .deep_view()[j] == deep_strs(feats_sorted@)[j] by {
                        assert(feats_sorted@[j].deep_view() =~= feats_sorted@[j]@);
                    }
                }
            }
            let row = Activation { id, feat_for, activation: PkgFeatForActivation { feats } };
            proof {
                reveal(spec_row_for_unit);
                assert(*u == units@[i as int]);
                assert(spec_row_for_unit(row, units@[i as int], host, root));
            }
            let ghost pre = rows@;
            rows.push(row);
            proof {
                assert forall|x: int| 0 <= x < rows@.len() implies spec_row_traceable(
                    #[trigger] rows@[x],
                    units@,
                    host,
                    root,
                ) by {
                    if x < pre.len() {
                        assert(rows@[x] == pre[x]);
                    } else {
                        assert(rows@[x] == row);
                        assert(spec_unit_counts(units@[i as int]));
                    }
                }
                assert forall|j: int|
                    0 <= j < i + 1 && spec_unit_counts(#[trigger] units@[j]) implies
                    spec_unit_spoken_for(units@[j], rows@, host, root) by {
                    if j < i {
                        let x = choose|x: int|
                            0 <= x < pre.len() && spec_row_for_unit(
                                #[trigger] pre[x],
                                units@[j],
                                host,
                                root,
                            );
                        assert(rows@[x] == pre[x]);
                    } else {
                        assert(rows@[rows@.len() - 1] == row);
                    }
                }
            }
        } else {
            proof {
                assert(*u == units@[i as int]);
                assert(!spec_unit_counts(units@[i as int]));
            }
        }
        i += 1;
    }
    Ok(rows)
}

/// Reordering the rows keeps what they say of the units.
proof fn lemma_permutation_keeps_view(
    units: Seq<Unit>,
    a: Seq<Activation>,
    b: Seq<Activation>,
    host: Seq<u8>,
    root: Seq<u8>,
)
    requires
        a.to_multiset() == b.to_multiset(),
        forall|x: int| 0 <= x < a.len() ==> spec_row_traceable(#[trigger] a[x], units, host, root),
        forall|j: int|
            0 <= j < units.len() && spec_unit_counts(#[trigger] units[j]) ==> spec_unit_spoken_for(
                units[j],
                a,
                host,
                root,
            ),
    ensures
        forall|x: int| 0 <= x < b.len() ==> spec_row_traceable(#[trigger] b[x], units, host, root),
        forall|j: int|
            0 <= j < units.len() && spec_unit_counts(#[trigger] units[j]) ==> spec_unit_spoken_for(
                units[j],
                b,
                host,
                root,
            ),
{
    assert forall|x: int| 0 <= x < b.len() implies spec_row_traceable(
        #[trigger] b[x],
        units,
        host,
        root,
    ) by {
        let rw = b[x];
        assert(b.contains(rw));
        vstd::seq_lib::to_multiset_contains(b, rw);
        vstd::seq_lib::to_multiset_contains(a, rw);
        assert(a.contains(rw));
        let y = choose|y: int| 0 <= y < a.len() && #[trigger] a[y] == rw;
        assert(spec_row_traceable(a[y], units, host, root));
    }
    assert forall|j: int|
        0 <= j < units.len() && spec_unit_counts(#[trigger] units[j]) implies spec_unit_spoken_for(
        units[j],
        b,
        host,
        root,
    ) by {
        assert(spec_unit_spoken_for(units[j], a, host, root));
        let y = choose|y: int|
            0 <= y < a.len() && spec_row_for_unit(#[trigger] a[y], units[j], host, root);
        let rw = a[y];
        assert(a.contains(rw));
        vstd::seq_lib::to_multiset_contains(a, rw);
        vstd::seq_lib::to_multiset_contains(b, rw);
        assert(b.contains(rw));
        let x = choose|x: int| 0 <= x < b.len() && #[trigger] b[x] == rw;
        assert(spec_row_for_unit(b[x], units[j], host, root));
    }
}

/// Two equal-pair rows with different feature lists witness two
/// contributing units that disagree on that pair's feature set.
proof fn lemma_disagreeing_rows_are_a_conflict(
    units: Seq<Unit>,
    rows: Seq<Activation>,
    host: Seq<u8>,
    root: Seq<u8>,
)
    requires
        forall|x: int| 0 <= x < rows.len() ==> spec_row_traceable(#[trigger] rows[x], units, host, root),
        exists|x1: int, x2: int|
            0 <= x1 < x2 < rows.len() && (#[trigger] rows[x1]).id@ == (#[trigger] rows[x2]).id@
                && rows[x1].feat_for == rows[x2].feat_for && rows[x1].activation.feats.deep_view()
                != rows[x2].activation.feats.deep_view(),
    ensures
        spec_units_conflict(units, host, root),
{
    reveal(spec_units_conflict);
    reveal(spec_row_for_unit);
    let (x1, x2) = choose|x1: int, x2: int|
        0 <= x1 < x2 < rows.len() && (#[trigger] rows[x1]).id@ == (#[trigger] rows[x2]).id@
            && rows[x1].feat_for == rows[x2].feat_for && rows[x1].activation.feats.deep_view()
            != rows[x2].activation.feats.deep_view();
    assert(spec_row_traceable(rows[x1], units, host, root));
    assert(spec_row_traceable(rows[x2], units, host, root));
    let j1 = choose|j1: int|
        0 <= j1 < units.len() && spec_unit_counts(#[trigger] units[j1]) && spec_row_for_unit(
            rows[x1],
            units[j1],
            host,
            root,
        );
    let j2 = choose|j2: int|
        0 <= j2 < units.len() && spec_unit_counts(#[trigger] units[j2]) && spec_row_for_unit(
            rows[x2],
            units[j2],
            host,
            root,
        );
    let u1 = units[j1];
    let u2 = units[j2];
    let d1 = rows[x1].activation.feats.deep_view();
    let d2 = rows[x2].activation.feats.deep_view();
    assert(!spec_same_members(u1.features.deep_view(), u2.features.deep_view())) by {
        if spec_same_members(u1.features.deep_view(), u2.features.deep_view()) {
            assert forall|f: Seq<u8>| d1.contains(f) <==> d2.contains(f) by {
                assert(d1.contains(f) <==> u1.features.deep_view().contains(f));
                assert(u1.features.deep_view().contains(f) <==> u2.features.deep_view().contains(
                    f,
                ));
                assert(d2.contains(f) <==> u2.features.deep_view().contains(f));
            }
            lemma_sorted_unique_members_equal(d1, d2);
        }
    }
    assert(spec_units_conflict(units, host, root));
}

/// Where every contributing unit has a row and equal-pair rows agree, no
/// two contributing units can disagree on one pair's feature set.
proof fn lemma_agreeing_rows_refute_conflicts(
    units: Seq<Unit>,
    rows: Seq<Activation>,
    host: Seq<u8>,
    root: Seq<u8>,
)
    requires
        forall|j: int|
            0 <= j < units.len() && spec_unit_counts(#[trigger] units[j]) ==> spec_unit_spoken_for(
                units[j],
                rows,
                host,
                root,
            ),
        forall|x1: int, x2: int|
            0 <= x1 < x2 < rows.len() && (#[trigger] rows[x1]).id@ == (#[trigger] rows[x2]).id@
                && rows[x1].feat_for == rows[x2].feat_for ==> rows[x1].activation.feats.deep_view()
                == rows[x2].activation.feats.deep_view(),
    ensures
        !spec_units_conflict(units, host, root),
{
    reveal(spec_units_conflict);
    reveal(spec_row_for_unit);
    if spec_units_conflict(units, host, root) {
        let (j1, j2) = choose|j1: int, j2: int|
            0 <= j1 < units.len() && 0 <= j2 < units.len() && spec_unit_counts(
                #[trigger] units[j1],
            ) && spec_unit_counts(#[trigger] units[j2]) && spec_canon_pkg_id(units[j1].pkg_id@, root)
                == spec_canon_pkg_id(units[j2].pkg_id@, root) && spec_unit_feat_for(
                units[j1],
                host,
            ) == spec_unit_feat_for(units[j2], host) && !spec_same_members(
                units[j1].features.deep_view(),
                units[j2].features.deep_view(),
            );
        let u1 = units[j1];
        let u2 = units[j2];
        assert(spec_unit_spoken_for(u1, rows, host, root));
        assert(spec_unit_spoken_for(u2, rows, host, root));
        let x1 = choose|x1: int|
            0 <= x1 < rows.len() && spec_row_for_unit(#[trigger] rows[x1], u1, host, root);
        let x2 = choose|x2: int|
            0 <= x2 < rows.len() && spec_row_for_unit(#[trigger] rows[x2], u2, host, root);
        assert(rows[x1].id@ == rows[x2].id@);
        assert(rows[x1].feat_for == rows[x2].feat_for);
        let d1 = rows[x1].activation.feats.deep_view();
        let d2 = rows[x2].activation.feats.deep_view();
        assert(d1 == d2) by {
            if x1 < x2 {
                assert(rows[x1].activation.feats.deep_view() == rows[
                    x2
                ].activation.feats.deep_view());
            } else if x2 < x1 {
                assert(rows[x2].activation.feats.deep_view() == rows[
                    x1
                ].activation.feats.deep_view());
            }
        }
        assert forall|f: Seq<u8>|
            u1.features.deep_view().contains(f) <==> u2.features.deep_view().contains(f) by {
            assert(d1.contains(f) <==> u1.features.deep_view().contains(f));
            assert(d2.contains(f) <==> u2.features.deep_view().contains(f));
        }
        assert(spec_same_members(u1.features.deep_view(), u2.features.deep_view()));
    }
}

/// Whether a unit contributes to the activation view.
fn unit_counts(u: &Unit) -> (r: bool)
    ensures
        r == spec_unit_counts(*u),
{
    if !bytes::bytes_eq(u.mode.as_slice(), bytes::lit("build").as_slice()) {
        return false;
    }
    if u.target.kind.len() == 1 {
        let k0 = &u.target.kind[0];
        if bytes::bytes_eq(k0.as_slice(), bytes::lit("bench").as_slice()) || bytes::bytes_eq(
            k0.as_slice(),
            bytes::lit("custom-build").as_slice(),
        ) || bytes::bytes_eq(k0.as_slice(), bytes::lit("example").as_slice()) || bytes::bytes_eq(
            k0.as_slice(),
            bytes::lit("test").as_slice(),
        ) {
            return false;
        }
    }
    true
}

/// Whether two byte-string lists are equal element for element.
pub fn strs_eq(a: &Vec<Vec<u8>>, b: &Vec<Vec<u8>>) -> (r: bool)
    ensures
        r == (a.deep_view() == b.deep_view()),
{
    if a.len() != b.len() {
        proof {
            assert(a.deep_view().len() != b.deep_view().len());
        }
        return false;
    }
    let mut i: usize = 0;
    while i < a.len()
        invariant
            i <= a@.len(),
            a@.len() == b@.len(),
            forall|j: int| 0 <= j < i ==> a.deep_view()[j] == b.deep_view()[j],
        decreases a@.len() - i,
    {
        proof {
            assert(a.deep_view()[i as int] == a@[i as int]@);
            assert(b.deep_view()[i as int] == b@[i as int]@);
        }
        if !bytes::bytes_eq(a[i].as_slice(), b[i].as_slice()) {
            return false;
        }
        i += 1;
    }
    proof {
        assert(a.deep_view() =~= b.deep_view());
    }
    true
}

/// Drop adjacent duplicates of an ordered byte-string list: the result is
/// strictly ascending with the same members.
#[verifier::rlimit(100)]
fn dedup_sorted(v: &Vec<Vec<u8>>) -> (r: Vec<Vec<u8>>)
    requires
        sorted_by_le(v@),
    ensures
        spec_strictly_sorted(r.deep_view()),
        spec_same_members(r.deep_view(), v.deep_view()),
{
    let mut out: Vec<Vec<u8>> = Vec::new();
    let mut i: usize = 0;
    while i < v.len()
        invariant
            i <= v@.len(),
            sorted_by_le(v@),
            spec_strictly_sorted(out.deep_view()),
            forall|s: Seq<u8>|
                out.deep_view().contains(s) <==> v.deep_view().take(i as int).contains(s),
            out.deep_view().len() > 0 && i > 0 ==> out.deep_view().last() == v.deep_view()[i - 1],
            i > 0 ==> out.deep_view().len() > 0,
        decreases v@.len() - i,
    {
        proof {
            assert(v.deep_view()[i as int] == v@[i as int]@);
        }
        let is_dup = if i > 0 {
            bytes::bytes_eq(v[i].as_slice(), v[i - 1].as_slice())
        } else {
            false
        };
        let ghost preo = out@;
        let ghost pre = out.deep_view();
        if !is_dup {
            let c = bytes::copy_range(v[i].as_slice(), 0, v[i].len());
            proof {
                assert(c.deep_view() =~= c@);
            }
            out.push(c);
            proof {
                assert(out.deep_view() =~= pre.push(v.deep_view()[i as int])) by {
                    assert forall|j: int| 0 <= j < out@.len() implies out.deep_view()[j] == pre.push(
                        v.deep_view()[i as int],
                    )[j] by {
                        if j < preo.len() {
                            assert(out@[j] == preo[j]);
                            assert(pre[j] == preo[j].deep_view());
                        }
                    }
                }
                assert(spec_strictly_sorted(out.deep_view())) by {
                    assert forall|a: int, b: int|
                        0 <= a < b < out.deep_view().len() implies crate::bytes::lex_lt(
                        #[trigger] out.deep_view()[a],
                        #[trigger] out.deep_view()[b],
                    ) by {
                        if b == out.deep_view().len() - 1 && i > 0 {
                            assert(pre[a] == out.deep_view()[a]);
                            assert(v.deep_view()[i as int] != v.deep_view()[i - 1]) by {
                                assert(v.deep_view()[i - 1] =~= v@[i - 1]@);
                                assert(v.deep_view()[i as int] =~= v@[i as int]@);
                            }
                            assert forall|x: int|
                                0 <= x < v@.len() implies (#[trigger] v@[x])@ == v.deep_view()[
                            x] by {
                                assert(v@[x].deep_view() =~= v@[x]@);
                            }
                            lemma_last_lt(pre, v.deep_view(), i as int, a, v@);
                        } else if b < out.deep_view().len() - 1 {
                            assert(pre[a] == out.deep_view()[a]);
                            assert(pre[b] == out.deep_view()[b]);
                        } else {
                            assert(pre.len() == 0) by {
                                if pre.len() > 0 {
                                    assert(pre.contains(pre[0]));
                                    assert(v.deep_view().take(i as int).contains(pre[0]));
                                }
                            }
                            assert(false);
                        }
                    }
                }
                assert forall|s: Seq<u8>|
                    out.deep_view().contains(s) <==> v.deep_view().take(i + 1 as int).contains(
                        s,
                    ) by {
                    if out.deep_view().contains(s) {
                        let w = choose|w: int|
                            0 <= w < out.deep_view().len() && out.deep_view()[w] == s;
                        if w < pre.len() {
                            assert(pre.contains(s));
                            let z = choose|z: int|
                                0 <= z < i && #[trigger] v.deep_view().take(i as int)[z] == s;
                            assert(v.deep_view().take(i + 1 as int)[z] == s);
                        } else {
                            assert(v.deep_view().take(i + 1 as int)[i as int] == s);
                        }
                    }
                    if v.deep_view().take(i + 1 as int).contains(s) {
                        let w = choose|w: int|
                            0 <= w < i + 1 && #[trigger] v.deep_view().take(i + 1 as int)[w] == s;
                        if w < i {
                            assert(v.deep_view().take(i as int)[w] == s);
                            assert(pre.contains(s));
                            let z = choose|z: int| 0 <= z < pre.len() && #[trigger] pre[z] == s;
                            assert(out.deep_view()[z] == s);
                        } else {
                            assert(out.deep_view().last() == s);
                        }
                    }
                }
            }
        } else {
            proof {
                assert(v.deep_view()[i as int] == v.deep_view()[i - 1]);
                assert forall|s: Seq<u8>|
                    out.deep_view().contains(s) <==> v.deep_view().take(i + 1 as int).contains(
                        s,
                    ) by {
                    if out.deep_view().contains(s) {
                        let z = choose|z: int|
                            0 <= z < i && #[trigger] v.deep_view().take(i as int)[z] == s;
                        assert(v.deep_view().take(i + 1 as int)[z] == s);
                    }
                    if v.deep_view().take(i + 1 as int).contains(s) {
                        let w = choose|w: int|
                            0 <= w < i + 1 && #[trigger] v.deep_view().take(i + 1 as int)[w] == s;
                        if w < i {
                            assert(v.deep_view().take(i as int)[w] == s);
                        } else {
                            assert(s == v.deep_view()[i - 1]);
                            assert(v.deep_view().take(i as int)[i - 1] == s);
                        }
                    }
                }
            }
        }
        i += 1;
    }
    proof {
        assert(v.deep_view().take(v@.len() as int) =~= v.deep_view());
    }
    out
}

/// The last kept element stays below a strictly later one.
proof fn lemma_last_lt(pre: Seq<Seq<u8>>, dv: Seq<Seq<u8>>, i: int, a: int, vv: Seq<Vec<u8>>)
    requires
        0 <= a < pre.len(),
        0 < i < dv.len(),
        pre.len() > 0 ==> pre.last() == dv[i - 1],
        spec_strictly_sorted(pre),
        dv[i] != dv[i - 1],
        dv.len() == vv.len(),
        forall|x: int| 0 <= x < vv.len() ==> (#[trigger] vv[x])@ == dv[x],
        sorted_by_le(vv),
    ensures
        crate::bytes::lex_lt(pre[a], dv[i]),
{
    assert(TotalOrdered::le(vv[i - 1], vv[i]));
    assert(crate::bytes::lex_le(dv[i - 1], dv[i]));
    assert(crate::bytes::lex_lt(dv[i - 1], dv[i]));
    if a < pre.len() - 1 {
        assert(crate::bytes::lex_lt(pre[a], pre[pre.len() - 1]));
        crate::bytes::lemma_lex_le_facts(pre[a], dv[i - 1], dv[i]);
        if pre[a] == dv[i] {
            crate::bytes::lemma_lex_le_facts(dv[i - 1], dv[i], dv[i - 1]);
        }
    } else {
        assert(pre[a] == dv[i - 1]);
    }
}

/// The element texts of a list of byte strings.
pub open spec fn deep_strs(a: Seq<Vec<u8>>) -> Seq<Seq<u8>> {
    a.map_values(|v: Vec<u8>| v@)
}

/// Lists with the same elements have the same element texts.
proof fn lemma_multiset_deep_members(a: Seq<Vec<u8>>, b: Seq<Vec<u8>>)
    requires
        a.to_multiset() == b.to_multiset(),
    ensures
        spec_same_members(deep_strs(a), deep_strs(b)),
{
    assert forall|s: Seq<u8>| #![trigger deep_strs(a).contains(s)] #![trigger deep_strs(b).contains(s)]
        deep_strs(a).contains(s) <==> deep_strs(b).contains(s) by {
        if deep_strs(a).contains(s) {
            let w = choose|w: int| 0 <= w < a.len() && #[trigger] deep_strs(a)[w] == s;
            assert(a.contains(a[w]));
            vstd::seq_lib::to_multiset_contains(a, a[w]);
            vstd::seq_lib::to_multiset_contains(b, a[w]);
            assert(b.contains(a[w]));
            let z = choose|z: int| 0 <= z < b.len() && #[trigger] b[z] == a[w];
            assert(deep_strs(b)[z] == s);
        }
        if deep_strs(b).contains(s) {
            let w = choose|w: int| 0 <= w < b.len() && #[trigger] deep_strs(b)[w] == s;
            assert(b.contains(b[w]));
            vstd::seq_lib::to_multiset_contains(b, b[w]);
            vstd::seq_lib::to_multiset_contains(a, b[w]);
            assert(a.contains(b[w]));
            let z = choose|z: int| 0 <= z < a.len() && #[trigger] a[z] == b[w];
            assert(deep_strs(a)[z] == s);
        }
    }
    assert(spec_same_members(deep_strs(a), deep_strs(b)));
}

} // verus!
