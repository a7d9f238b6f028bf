//! A total order on the crate's own data, and a verified sort.
//!
//! The resolver's output order is filesystem-dependent, so every list in the
//! canonical graph is put into a fixed total order before serialization.

use vstd::prelude::*;

use crate::bytes::{lex_le, lex_lt, lemma_lex_le_facts, lex_le_exec, bytes_eq};
use crate::input::{DepKind, ManifestDependency, ManifestTarget, NodeDepKind, Platform};
use crate::nargo::PkgId;
use crate::output::{PkgDepKind, PkgDepKindView};

verus! {

/// A type with a total order, decidable by executable code.
pub trait TotalOrdered: Sized {
    spec fn le(self, other: Self) -> bool;

    proof fn lemma_le_total(a: Self, b: Self)
        ensures
            a.le(b) || b.le(a),
    ;

    proof fn lemma_le_trans(a: Self, b: Self, c: Self)
        requires
            a.le(b),
            b.le(c),
        ensures
            a.le(c),
    ;

    fn le_exec(&self, other: &Self) -> (r: bool)
        ensures
            r == self.le(*other),
    ;
}

/// The sequence is ordered by `le`.
pub open spec fn sorted_by_le<T: TotalOrdered>(s: Seq<T>) -> bool {
    forall|i: int, j: int| 0 <= i < j < s.len() ==> #[trigger] s[i].le(s[j])
}

/// The order on optional byte strings: an absent value sorts first.
pub open spec fn opt_le(a: Option<Seq<u8>>, b: Option<Seq<u8>>) -> bool {
    match (a, b) {
        (Option::None, _) => true,
        (Option::Some(_), Option::None) => false,
        (Option::Some(x), Option::Some(y)) => lex_le(x, y),
    }
}

/// Strict form of `opt_le`.
pub open spec fn opt_lt(a: Option<Seq<u8>>, b: Option<Seq<u8>>) -> bool {
    opt_le(a, b) && a != b
}

pub proof fn lemma_opt_le_facts(a: Option<Seq<u8>>, b: Option<Seq<u8>>, c: Option<Seq<u8>>)
    ensures
        opt_le(a, b) || opt_le(b, a),
        (opt_le(a, b) && opt_le(b, a)) ==> a == b,
        (opt_le(a, b) && opt_le(b, c)) ==> opt_le(a, c),
{
    let av = match a {
        Some(x) => x,
        None => Seq::empty(),
    };
    let bv = match b {
        Some(x) => x,
        None => Seq::empty(),
    };
    let cv = match c {
        Some(x) => x,
        None => Seq::empty(),
    };
    lemma_lex_le_facts(av, bv, cv);
}

/// Decide `opt_le` for optional platform predicates.
pub fn opt_plat_le_exec(a: &Option<Platform>, b: &Option<Platform>) -> (r: bool)
    ensures
        r == opt_le(plat_view(*a), plat_view(*b)),
{
    match (a, b) {
        (Option::None, _) => true,
        (Option::Some(_), Option::None) => false,
        (Option::Some(x), Option::Some(y)) => lex_le_exec(x.0.as_slice(), y.0.as_slice()),
    }
}

/// The platform text of an optional target predicate.
pub open spec fn plat_view(o: Option<Platform>) -> Option<Seq<u8>> {
    match o {
        Some(p) => Some(p@),
        None => None,
    }
}

/// The lexicographic order on lists of byte strings.
pub open spec fn ss_le(a: Seq<Seq<u8>>, b: Seq<Seq<u8>>) -> bool
    decreases a.len(),
{
    if a.len() == 0 {
        true
    } else if b.len() == 0 {
        false
    } else if lex_lt(a[0], b[0]) {
        true
    } else if a[0] == b[0] {
        ss_le(a.skip(1), b.skip(1))
    } else {
        false
    }
}

/// Strict form of `ss_le`.
pub open spec fn ss_lt(a: Seq<Seq<u8>>, b: Seq<Seq<u8>>) -> bool {
    ss_le(a, b) && a != b
}

pub proof fn lemma_ss_le_facts(a: Seq<Seq<u8>>, b: Seq<Seq<u8>>, c: Seq<Seq<u8>>)
    ensures
        ss_le(a, b) || ss_le(b, a),
        (ss_le(a, b) && ss_le(b, a)) ==> a == b,
        (ss_le(a, b) && ss_le(b, c)) ==> ss_le(a, c),
    decreases a.len() + b.len() + c.len(),
{
    if a.len() > 0 && b.len() > 0 {
        lemma_lex_le_facts(a[0], b[0], if c.len() > 0 {
            c[0]
        } else {
            Seq::empty()
        });
        lemma_lex_le_facts(b[0], a[0], a[0]);
        if a[0] == b[0] {
            lemma_ss_le_facts(a.skip(1), b.skip(1), if c.len() > 0 {
                c.skip(1)
            } else {
                Seq::empty()
            });
            if ss_le(a, b) && ss_le(b, a) {
                assert(a.skip(1) == b.skip(1));
                assert(a =~= b) by {
                    assert forall|i: int| 0 <= i < a.len() implies a[i] == b[i] by {
                        if i > 0 {
                            assert(a.skip(1)[i - 1] == a[i]);
                            assert(b.skip(1)[i - 1] == b[i]);
                        }
                    }
                }
            }
        }
        if c.len() > 0 && b[0] == c[0] && a[0] != b[0] {
            lemma_ss_le_facts(a, b.skip(1), c.skip(1));
        }
    } else if a.len() > 0 && b.len() == 0 && c.len() > 0 {
        lemma_lex_le_facts(a[0], c[0], c[0]);
    }
}

/// Decide `ss_le` for two lists of byte strings.
pub fn ss_le_exec(a: &Vec<Vec<u8>>, b: &Vec<Vec<u8>>) -> (r: bool)
    ensures
        r == ss_le(a.deep_view(), b.deep_view()),
    decreases a@.len(),
{
    let ghost av = a.deep_view();
    let ghost bv = b.deep_view();
    let mut i: usize = 0;
    proof {
        assert(av.skip(0) =~= av);
        assert(bv.skip(0) =~= bv);
    }
    loop
        invariant
            i <= a@.len(),
            i <= b@.len(),
            av == a.deep_view(),
            bv == b.deep_view(),
            ss_le(av, bv) == ss_le(av.skip(i as int), bv.skip(i as int)),
        decreases a@.len() - i,
    {
        if i >= a.len() {
            proof {
                assert(av.skip(i as int).len() == 0);
            }
            return true;
        }
        if i >= b.len() {
            proof {
                assert(bv.skip(i as int).len() == 0);
                assert(av.skip(i as int).len() > 0);
            }
            return false;
        }
        let x = &a[i];
        let y = &b[i];
        proof {
            assert(av.skip(i as int)[0] == av[i as int]);
            assert(bv.skip(i as int)[0] == bv[i as int]);
            assert(av[i as int] == a@[i as int]@);
            assert(bv[i as int] == b@[i as int]@);
        }
        let le1 = lex_le_exec(x.as_slice(), y.as_slice());
        let eq = bytes_eq(x.as_slice(), y.as_slice());
        if eq {
            proof {
                assert(av.skip(i as int).skip(1) =~= av.skip(i + 1 as int));
                assert(bv.skip(i as int).skip(1) =~= bv.skip(i + 1 as int));
            }
            i += 1;
        } else if le1 {
            return true;
        } else {
            return false;
        }
    }
}

/// The members and key order of the canonical graph: byte order of ids.
impl TotalOrdered for PkgId {
    open spec fn le(self, other: Self) -> bool {
        lex_le(self@, other@)
    }

    proof fn lemma_le_total(a: Self, b: Self) {
        lemma_lex_le_facts(a@, b@, b@);
    }

    proof fn lemma_le_trans(a: Self, b: Self, c: Self) {
        lemma_lex_le_facts(a@, b@, c@);
    }

    fn le_exec(&self, other: &Self) -> (r: bool) {
        lex_le_exec(self.0.as_slice(), other.0.as_slice())
    }
}

/// Byte strings sort lexicographically.
impl TotalOrdered for Vec<u8> {
    open spec fn le(self, other: Self) -> bool {
        lex_le(self@, other@)
    }

    proof fn lemma_le_total(a: Self, b: Self) {
        lemma_lex_le_facts(a@, b@, b@);
    }

    proof fn lemma_le_trans(a: Self, b: Self, c: Self) {
        lemma_lex_le_facts(a@, b@, c@);
    }

    fn le_exec(&self, other: &Self) -> (r: bool) {
        lex_le_exec(self.as_slice(), other.as_slice())
    }
}

/// Map entries keyed by package id sort by the key's byte order.
impl<T> TotalOrdered for (PkgId, T) {
    open spec fn le(self, other: Self) -> bool {
        lex_le(self.0@, other.0@)
    }

    proof fn lemma_le_total(a: Self, b: Self) {
        lemma_lex_le_facts(a.0@, b.0@, b.0@);
    }

    proof fn lemma_le_trans(a: Self, b: Self, c: Self) {
        lemma_lex_le_facts(a.0@, b.0@, c.0@);
    }

    fn le_exec(&self, other: &Self) -> (r: bool) {
        lex_le_exec(self.0.0.as_slice(), other.0.0.as_slice())
    }
}

/// Map entries keyed by a byte string sort by the key's byte order.
impl<T> TotalOrdered for (Vec<u8>, T) {
    open spec fn le(self, other: Self) -> bool {
        lex_le(self.0@, other.0@)
    }

    proof fn lemma_le_total(a: Self, b: Self) {
        lemma_lex_le_facts(a.0@, b.0@, b.0@);
    }

    proof fn lemma_le_trans(a: Self, b: Self, c: Self) {
        lemma_lex_le_facts(a.0@, b.0@, c.0@);
    }

    fn le_exec(&self, other: &Self) -> (r: bool) {
        lex_le_exec(self.0.as_slice(), other.0.as_slice())
    }
}

/// Declared dependencies sort by name, then kind, then target predicate.
impl TotalOrdered for ManifestDependency {
    open spec fn le(self, other: Self) -> bool {
        ||| lex_lt(self.name@, other.name@)
        ||| (self.name@ == other.name@ && self.kind.rank() < other.kind.rank())
        ||| (self.name@ == other.name@ && self.kind.rank() == other.kind.rank() && opt_le(
            plat_view(self.target),
            plat_view(other.target),
        ))
    }

    proof fn lemma_le_total(a: Self, b: Self) {
        lemma_lex_le_facts(a.name@, b.name@, b.name@);
        lemma_opt_le_facts(plat_view(a.target), plat_view(b.target), plat_view(b.target));
    }

    proof fn lemma_le_trans(a: Self, b: Self, c: Self) {
        lemma_lex_le_facts(a.name@, b.name@, c.name@);
        lemma_lex_le_facts(b.name@, a.name@, a.name@);
        lemma_lex_le_facts(c.name@, b.name@, b.name@);
        lemma_opt_le_facts(plat_view(a.target), plat_view(b.target), plat_view(c.target));
    }

    fn le_exec(&self, other: &Self) -> (r: bool) {
        let name_le = lex_le_exec(self.name.as_slice(), other.name.as_slice());
        let name_eq = bytes_eq(self.name.as_slice(), other.name.as_slice());
        if name_le && !name_eq {
            true
        } else if !name_eq {
            false
        } else {
            let ra = self.kind.rank_exec();
            let rb = other.kind.rank_exec();
            if ra < rb {
                true
            } else if ra > rb {
                false
            } else {
                opt_plat_le_exec(&self.target, &other.target)
            }
        }
    }
}

/// Build targets sort by kind list, then crate-type list, then name.
impl TotalOrdered for ManifestTarget {
    open spec fn le(self, other: Self) -> bool {
        ||| ss_lt(self.kind.deep_view(), other.kind.deep_view())
        ||| (self.kind.deep_view() == other.kind.deep_view() && ss_lt(
            self.crate_types.deep_view(),
            other.crate_types.deep_view(),
        ))
        ||| (self.kind.deep_view() == other.kind.deep_view() && self.crate_types.deep_view()
            == other.crate_types.deep_view() && lex_le(self.name@, other.name@))
    }

    proof fn lemma_le_total(a: Self, b: Self) {
        lemma_ss_le_facts(a.kind.deep_view(), b.kind.deep_view(), b.kind.deep_view());
        lemma_ss_le_facts(
            a.crate_types.deep_view(),
            b.crate_types.deep_view(),
            b.crate_types.deep_view(),
        );
        lemma_lex_le_facts(a.name@, b.name@, b.name@);
    }

    proof fn lemma_le_trans(a: Self, b: Self, c: Self) {
        lemma_ss_le_facts(a.kind.deep_view(), b.kind.deep_view(), c.kind.deep_view());
        lemma_ss_le_facts(b.kind.deep_view(), a.kind.deep_view(), a.kind.deep_view());
        lemma_ss_le_facts(c.kind.deep_view(), b.kind.deep_view(), b.kind.deep_view());
        lemma_ss_le_facts(
            a.crate_types.deep_view(),
            b.crate_types.deep_view(),
            c.crate_types.deep_view(),
        );
        lemma_ss_le_facts(
            b.crate_types.deep_view(),
            a.crate_types.deep_view(),
            a.crate_types.deep_view(),
        );
        lemma_ss_le_facts(
            c.crate_types.deep_view(),
            b.crate_types.deep_view(),
            b.crate_types.deep_view(),
        );
        lemma_lex_le_facts(a.name@, b.name@, c.name@);
    }

    fn le_exec(&self, other: &Self) -> (r: bool) {
        let k_le = ss_le_exec(&self.kind, &other.kind);
        let k_ge = ss_le_exec(&other.kind, &self.kind);
        if k_le && !k_ge {
            proof {
                lemma_ss_le_facts(self.kind.deep_view(), other.kind.deep_view(), Seq::empty());
            }
            return true;
        }
        if !k_le {
            proof {
                lemma_ss_le_facts(self.kind.deep_view(), other.kind.deep_view(), Seq::empty());
            }
            return false;
        }
        proof {
            lemma_ss_le_facts(self.kind.deep_view(), other.kind.deep_view(), Seq::empty());
        }
        let c_le = ss_le_exec(&self.crate_types, &other.crate_types);
        let c_ge = ss_le_exec(&other.crate_types, &self.crate_types);
        proof {
            lemma_ss_le_facts(
                self.crate_types.deep_view(),
                other.crate_types.deep_view(),
                Seq::empty(),
            );
        }
        if c_le && !c_ge {
            return true;
        }
        if !c_le {
            return false;
        }
        lex_le_exec(self.name.as_slice(), other.name.as_slice())
    }
}

/// Activation tags sort by kind, then target predicate: the fixed order of
/// the per-edge output.
impl TotalOrdered for NodeDepKind {
    open spec fn le(self, other: Self) -> bool {
        ||| self.kind.rank() < other.kind.rank()
        ||| (self.kind.rank() == other.kind.rank() && opt_le(
            plat_view(self.target),
            plat_view(other.target),
        ))
    }

    proof fn lemma_le_total(a: Self, b: Self) {
        lemma_opt_le_facts(plat_view(a.target), plat_view(b.target), plat_view(b.target));
    }

    proof fn lemma_le_trans(a: Self, b: Self, c: Self) {
        lemma_opt_le_facts(plat_view(a.target), plat_view(b.target), plat_view(c.target));
    }

    fn le_exec(&self, other: &Self) -> (r: bool) {
        let ra = self.kind.rank_exec();
        let rb = other.kind.rank_exec();
        if ra < rb {
            true
        } else if ra > rb {
            false
        } else {
            opt_plat_le_exec(&self.target, &other.target)
        }
    }
}

/// The fixed order of activation records: kind, then target predicate.
pub open spec fn kindv_le(a: PkgDepKindView, b: PkgDepKindView) -> bool {
    ||| a.kind.rank() < b.kind.rank()
    ||| (a.kind.rank() == b.kind.rank() && opt_le(a.target, b.target))
}

/// A record list in the fixed (kind, target) order.
pub open spec fn kinds_sorted(s: Seq<PkgDepKindView>) -> bool {
    forall|i: int, j: int| 0 <= i < j < s.len() ==> kindv_le(#[trigger] s[i], #[trigger] s[j])
}

impl TotalOrdered for PkgDepKind {
    open spec fn le(self, other: Self) -> bool {
        kindv_le(self@, other@)
    }

    proof fn lemma_le_total(a: Self, b: Self) {
        lemma_opt_le_facts(a@.target, b@.target, b@.target);
    }

    proof fn lemma_le_trans(a: Self, b: Self, c: Self) {
        lemma_opt_le_facts(a@.target, b@.target, c@.target);
    }

    fn le_exec(&self, other: &Self) -> (r: bool) {
        let ra = self.kind.rank_exec();
        let rb = other.kind.rank_exec();
        if ra < rb {
            true
        } else if ra > rb {
            false
        } else {
            opt_plat_le_exec(&self.target, &other.target)
        }
    }
}

/// Keys ascend strictly: the pairs form a well-formed ordered map.
pub open spec fn key_sorted_strict<X>(s: Seq<(Seq<u8>, X)>) -> bool {
    forall|i: int, j: int|
        0 <= i < j < s.len() ==> crate::bytes::lex_lt((#[trigger] s[i]).0, (#[trigger] s[j]).0)
}

/// Keys ascend weakly.
pub open spec fn key_sorted<X>(s: Seq<(Seq<u8>, X)>) -> bool {
    forall|i: int, j: int|
        0 <= i < j < s.len() ==> lex_le((#[trigger] s[i]).0, (#[trigger] s[j]).0)
}

/// Selection sort: returns the input's elements in `le` order.
pub fn sort_by_le<T: TotalOrdered>(input: Vec<T>) -> (r: Vec<T>)
    ensures
        sorted_by_le(r@),
        r@.to_multiset() == input@.to_multiset(),
        r@.len() == input@.len(),
{
    broadcast use vstd::seq_lib::group_to_multiset_ensures;

    let mut v = input;
    let mut out: Vec<T> = Vec::new();
    proof {
        assert(out@.to_multiset().add(v@.to_multiset()) =~= v@.to_multiset());
    }
    let ghost all = v@.to_multiset();
    let ghost total_len = v@.len();
    while v.len() > 0
        invariant
            sorted_by_le(out@),
            out@.to_multiset().add(v@.to_multiset()) == all,
            out@.len() + v@.len() == total_len,
            forall|i: int, j: int|
                0 <= i < out@.len() && 0 <= j < v@.len() ==> #[trigger] out@[i].le(#[trigger] v@[j]),
        decreases v.len(),
    {
        let mut m: usize = 0;
        let mut k: usize = 1;
        proof {
            T::lemma_le_total(v@[0], v@[0]);
        }
        while k < v.len()
            invariant
                v@.len() > 0,
                m < k,
                k <= v@.len(),
                forall|j: int| 0 <= j < k ==> #[trigger] v@[m as int].le(v@[j]),
            decreases v.len() - k,
        {
            if v[k].le_exec(&v[m]) {
                proof {
                    assert forall|j: int| 0 <= j < k + 1 implies #[trigger] v@[k as int].le(v@[j]) by {
                        if j < k {
                            T::lemma_le_trans(v@[k as int], v@[m as int], v@[j]);
                        } else {
                            T::lemma_le_total(v@[k as int], v@[k as int]);
                        }
                    }
                }
                m = k;
            } else {
                proof {
                    T::lemma_le_total(v@[k as int], v@[m as int]);
                }
            }
            k += 1;
        }
        let ghost old_v = v@;
        let ghost old_out = out@;
        let x = v.remove(m);
        out.push(x);
        proof {
            vstd::seq_lib::to_multiset_build(old_out, x);
            vstd::seq_lib::to_multiset_remove(old_v, m as int);
            assert(out@ == old_out.push(x));
            assert(v@ == old_v.remove(m as int));
            assert(old_v.to_multiset().contains(x)) by {
                vstd::seq_lib::to_multiset_contains(old_v, x);
                assert(old_v.contains(x)) by {
                    assert(old_v[m as int] == x);
                }
            }
            assert(out@.to_multiset().add(v@.to_multiset()) =~= all);
            assert forall|i: int, j: int| 0 <= i < j < out@.len() implies #[trigger] out@[i].le(
                out@[j],
            ) by {
                if j == out@.len() - 1 {
                    assert(out@[i] == old_out[i]);
                    assert(old_out[i].le(old_v[m as int]));
                }
            }
            assert forall|i: int, j: int|
                0 <= i < out@.len() && 0 <= j < v@.len() implies #[trigger] out@[i].le(
                #[trigger] v@[j],
            ) by {
                let jv: int = if j < m { j } else { j + 1 };
                assert(v@[j] == old_v[jv]);
                if i < out@.len() - 1 {
                    assert(old_out[i].le(old_v[jv]));
                } else {
                    assert(out@[i] == old_v[m as int]);
                    assert(old_v[m as int].le(old_v[jv]));
                }
            }
        }
    }
    out
}

/// Two sequences with the same elements keep the same elements under a
/// map.
pub proof fn lemma_map_values_multiset<A, B>(s1: Seq<A>, s2: Seq<A>, f: spec_fn(A) -> B)
    requires
        s1.to_multiset() == s2.to_multiset(),
    ensures
        s1.map_values(f).to_multiset() == s2.map_values(f).to_multiset(),
    decreases s1.len(),
{
    broadcast use vstd::seq_lib::group_to_multiset_ensures;

    if s1.len() == 0 {
        assert(s2.to_multiset().len() == 0);
        assert(s1.map_values(f) =~= Seq::<B>::empty());
        assert(s2.map_values(f) =~= Seq::<B>::empty());
    } else {
        let x = s1[0];
        assert(s1.contains(x));
        assert(s1.to_multiset().count(x) > 0);
        assert(s2.to_multiset().count(x) > 0);
        assert(s2.contains(x));
        let i = choose|i: int| 0 <= i < s2.len() && s2[i] == x;
        let t1 = s1.remove(0);
        let t2 = s2.remove(i);
        assert(t1.to_multiset() =~= s1.to_multiset().remove(x));
        assert(t2.to_multiset() =~= s2.to_multiset().remove(x));
        lemma_map_values_multiset(t1, t2, f);
        assert(t1.map_values(f) =~= s1.map_values(f).remove(0));
        assert(t2.map_values(f) =~= s2.map_values(f).remove(i));
        assert(s1.map_values(f).remove(0).to_multiset() =~= s1.map_values(f).to_multiset().remove(
            f(x),
        )) by {
            assert(s1.map_values(f)[0] == f(x));
        }
        assert(s2.map_values(f).remove(i).to_multiset() =~= s2.map_values(f).to_multiset().remove(
            f(x),
        )) by {
            assert(s2.map_values(f)[i] == f(x));
        }
        assert(s1.map_values(f).to_multiset().contains(f(x))) by {
            assert(s1.map_values(f)[0] == f(x));
            assert(s1.map_values(f).contains(f(x)));
        }
        assert(s2.map_values(f).to_multiset().contains(f(x))) by {
            assert(s2.map_values(f)[i] == f(x));
            assert(s2.map_values(f).contains(f(x)));
        }
        assert(s1.map_values(f).to_multiset() =~= s2.map_values(f).to_multiset()) by {
            let m1 = s1.map_values(f).to_multiset();
            let m2 = s2.map_values(f).to_multiset();
            assert(m1.remove(f(x)) == m2.remove(f(x)));
            assert forall|y: B| true implies m1.count(y) == m2.count(y) by {
                assert(m1.remove(f(x)).count(y) == m2.remove(f(x)).count(y));
            }
        }
    }
}

} // verus!
