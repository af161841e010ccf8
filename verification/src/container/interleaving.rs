//! The canonical layout depends on the sections of each kind in their order,
//! not on how the caller interleaves the two kinds.

use vstd::prelude::*;

use crate::book::BookId;
use crate::schema::SectionKind;

use super::write::{
    dup_at, first_orphan_from, key_less, least_dup_key, min_key, of_kind, orphan_at, spec_canonical_order,
    spec_write_container_sections, token_pair, ContainerSection,
};

verus! {

/// Where section `i` lands among the sections of kind `kind`.
spec fn pos<'a>(ss: Seq<ContainerSection<'a>>, kind: SectionKind, i: int) -> int {
    of_kind(ss, kind, i as nat).len() as int
}

proof fn lemma_of_kind_monotone<'a>(ss: Seq<ContainerSection<'a>>, kind: SectionKind, m: nat, n: nat)
    requires
        m <= n,
    ensures
        of_kind(ss, kind, m).len() <= of_kind(ss, kind, n).len(),
        forall|p: int| 0 <= p < of_kind(ss, kind, m).len() ==> of_kind(ss, kind, n)[p] == of_kind(
            ss,
            kind,
            m,
        )[p],
    decreases n,
{
    if n > m {
        lemma_of_kind_monotone(ss, kind, m, (n - 1) as nat);
    }
}

/// A section of kind `kind` sits at its position among those sections.
proof fn lemma_pos_at<'a>(ss: Seq<ContainerSection<'a>>, kind: SectionKind, i: int, n: nat)
    requires
        0 <= i < n,
        ss[i].spec_kind() == kind,
    ensures
        0 <= pos(ss, kind, i) < of_kind(ss, kind, n).len(),
        of_kind(ss, kind, n)[pos(ss, kind, i)] == ss[i],
{
    lemma_of_kind_monotone(ss, kind, (i + 1) as nat, n);
}

/// Two sections of kind `kind` take distinct positions.
proof fn lemma_pos_distinct<'a>(ss: Seq<ContainerSection<'a>>, kind: SectionKind, i: int, j: int)
    requires
        0 <= i < j,
        ss[i].spec_kind() == kind,
    ensures
        pos(ss, kind, i) < pos(ss, kind, j),
{
    lemma_of_kind_monotone(ss, kind, (i + 1) as nat, j as nat);
}

/// Every position among the sections of kind `kind` holds one of them.
proof fn lemma_of_kind_member<'a>(ss: Seq<ContainerSection<'a>>, kind: SectionKind, n: nat, p: int)
    requires
        0 <= p < of_kind(ss, kind, n).len(),
    ensures
        exists|i: int|
            0 <= i < n && ss[i].spec_kind() == kind && pos(ss, kind, i) == p
                && #[trigger] of_kind(ss, kind, n)[p] == ss[i],
    decreases n,
{
    if p < of_kind(ss, kind, (n - 1) as nat).len() {
        lemma_of_kind_member(ss, kind, (n - 1) as nat, p);
        let i = choose|i: int|
            0 <= i < n - 1 && ss[i].spec_kind() == kind && pos(ss, kind, i) == p
                && #[trigger] of_kind(ss, kind, (n - 1) as nat)[p] == ss[i];
        lemma_of_kind_monotone(ss, kind, (n - 1) as nat, n);
        assert(of_kind(ss, kind, n)[p] == ss[i]);
    } else {
        assert(ss[n - 1].spec_kind() == kind);
        assert(of_kind(ss, kind, n)[p] == ss[n - 1]);
    }
}

proof fn lemma_least_dup_none<'a>(ss: Seq<ContainerSection<'a>>, n: nat)
    requires
        n <= ss.len(),
    ensures
        least_dup_key(ss, n) is None <==> forall|i: int| 0 <= i < n ==> !#[trigger] dup_at(ss, i),
    decreases n,
{
    if n > 0 {
        lemma_least_dup_none(ss, (n - 1) as nat);
        let rest = least_dup_key(ss, (n - 1) as nat);
        let here = if dup_at(ss, n - 1) {
            Some((ss[n - 1].spec_kind(), ss[n - 1].spec_book()))
        } else {
            None
        };
        assert(min_key(rest, here) is None <==> (rest is None && here is None));
    }
}

proof fn lemma_first_orphan_none<'a>(ss: Seq<ContainerSection<'a>>, i: int)
    requires
        0 <= i <= ss.len(),
    ensures
        first_orphan_from(ss, i) is None <==> forall|j: int| i <= j < ss.len() ==> !#[trigger] orphan_at(ss, j),
    decreases ss.len() - i,
{
    if i < ss.len() {
        lemma_first_orphan_none(ss, i + 1);
    }
}

/// The two lists hold the same sections of each kind, in the same order.
pub open spec fn same_by_kind<'a>(a: Seq<ContainerSection<'a>>, b: Seq<ContainerSection<'a>>) -> bool {
    &&& of_kind(a, SectionKind::Token, a.len()) == of_kind(b, SectionKind::Token, b.len())
    &&& of_kind(a, SectionKind::Finding, a.len()) == of_kind(b, SectionKind::Finding, b.len())
}

/// A section of `b` is a section of `a` of the same kind.
proof fn lemma_member_of_other<'a>(a: Seq<ContainerSection<'a>>, b: Seq<ContainerSection<'a>>, i: int)
    requires
        same_by_kind(a, b),
        0 <= i < b.len(),
    ensures
        exists|i2: int|
            0 <= i2 < a.len() && a[i2] == b[i] && pos(a, b[i].spec_kind(), i2) == pos(b, b[i].spec_kind(), i),
{
    let kind = b[i].spec_kind();
    lemma_pos_at(b, kind, i, b.len());
    assert(of_kind(a, kind, a.len()) == of_kind(b, kind, b.len())) by {
        match kind {
            SectionKind::Token => {},
            SectionKind::Finding => {},
        }
    }
    lemma_of_kind_member(a, kind, a.len(), pos(b, kind, i));
}

/// Some section among the first `n` is duplicated and has key `(kind, book)`.
spec fn dup_key_below<'a>(ss: Seq<ContainerSection<'a>>, n: nat, kind: SectionKind, book: BookId) -> bool {
    exists|i: int|
        0 <= i < n && #[trigger] dup_at(ss, i) && ss[i].spec_kind() == kind && ss[i].spec_book() == book
}

/// The least duplicated key is a duplicated key that no duplicated key sorts
/// before.
proof fn lemma_least_dup_some<'a>(ss: Seq<ContainerSection<'a>>, n: nat)
    requires
        n <= ss.len(),
    ensures
        least_dup_key(ss, n) matches Some(k) ==> dup_key_below(ss, n, k.0, k.1) && forall|i: int|
            0 <= i < n && #[trigger] dup_at(ss, i) ==> !key_less(
                ss[i].spec_kind(),
                ss[i].spec_book(),
                k.0,
                k.1,
            ),
    decreases n,
{
    if n > 0 {
        lemma_least_dup_some(ss, (n - 1) as nat);
        lemma_least_dup_none(ss, (n - 1) as nat);
        let rest = least_dup_key(ss, (n - 1) as nat);
        let rk = rest.unwrap();
        if let Some(k) = least_dup_key(ss, n) {
            if dup_at(ss, n - 1) && (rest is None || key_less(
                ss[n - 1].spec_kind(),
                ss[n - 1].spec_book(),
                rk.0,
                rk.1,
            )) {
                assert(k == (ss[n - 1].spec_kind(), ss[n - 1].spec_book()));
                assert(dup_key_below(ss, n, k.0, k.1)) by {
                    assert(dup_at(ss, n - 1));
                }
                assert forall|i: int| 0 <= i < n && #[trigger] dup_at(ss, i) implies !key_less(
                    ss[i].spec_kind(),
                    ss[i].spec_book(),
                    k.0,
                    k.1,
                ) by {
                    if i < n - 1 {
                        assert(rest is Some);
                        ss[i].spec_book().lemma_ordinal(rk.1);
                        k.1.lemma_ordinal(rk.1);
                    }
                }
            } else {
                assert(rest is Some);
                assert(k == rest->0);
                let i0 = choose|i: int|
                    0 <= i < n - 1 && #[trigger] dup_at(ss, i) && ss[i].spec_kind() == k.0
                        && ss[i].spec_book() == k.1;
                assert(dup_key_below(ss, n, k.0, k.1)) by {
                    assert(dup_at(ss, i0));
                }
            }
        }
    }
}

/// Two keys neither of which sorts before the other are the same key.
proof fn lemma_key_total(k1: SectionKind, b1: BookId, k2: SectionKind, b2: BookId)
    requires
        !key_less(k1, b1, k2, b2),
        !key_less(k2, b2, k1, b1),
    ensures
        k1 == k2,
        b1 == b2,
{
    assert(k1 == k2) by {
        match k1 {
            SectionKind::Token => {},
            SectionKind::Finding => {},
        }
        match k2 {
            SectionKind::Token => {},
            SectionKind::Finding => {},
        }
    }
    b1.lemma_ordinal(b2);
}

/// A duplicated section of `b` is a duplicated section of `a`.
proof fn lemma_dup_transfers<'a>(a: Seq<ContainerSection<'a>>, b: Seq<ContainerSection<'a>>, i: int)
    requires
        same_by_kind(a, b),
        0 <= i < b.len(),
        dup_at(b, i),
    ensures
        dup_key_below(a, a.len(), b[i].spec_kind(), b[i].spec_book()),
{
    let j = choose|j: int|
        0 <= j < b.len() && j != i && #[trigger] b[j].spec_kind() == b[i].spec_kind()
            && b[j].spec_book() == b[i].spec_book();
    let kind = b[i].spec_kind();
    lemma_member_of_other(a, b, i);
    lemma_member_of_other(a, b, j);
    let i2 = choose|i2: int| 0 <= i2 < a.len() && a[i2] == b[i] && pos(a, kind, i2) == pos(b, kind, i);
    let j2 = choose|j2: int| 0 <= j2 < a.len() && a[j2] == b[j] && pos(a, kind, j2) == pos(b, kind, j);
    if i < j {
        lemma_pos_distinct(b, kind, i, j);
    } else {
        lemma_pos_distinct(b, kind, j, i);
    }
    assert(i2 != j2);
    assert(dup_at(a, i2));
}

/// Both lists name the same least duplicated key, or neither has one.
proof fn lemma_least_dup_same<'a>(a: Seq<ContainerSection<'a>>, b: Seq<ContainerSection<'a>>)
    requires
        same_by_kind(a, b),
    ensures
        least_dup_key(a, a.len()) == least_dup_key(b, b.len()),
{
    assert(same_by_kind(b, a));
    lemma_least_dup_none(a, a.len());
    lemma_least_dup_none(b, b.len());
    lemma_least_dup_some(a, a.len());
    lemma_least_dup_some(b, b.len());
    match (least_dup_key(a, a.len()), least_dup_key(b, b.len())) {
        (None, None) => {},
        (Some(ka), None) => {
            let i = choose|i: int|
                0 <= i < a.len() && #[trigger] dup_at(a, i) && a[i].spec_kind() == ka.0 && a[i].spec_book() == ka.1;
            lemma_dup_transfers(b, a, i);
        },
        (None, Some(kb)) => {
            let i = choose|i: int|
                0 <= i < b.len() && #[trigger] dup_at(b, i) && b[i].spec_kind() == kb.0 && b[i].spec_book() == kb.1;
            lemma_dup_transfers(a, b, i);
        },
        (Some(ka), Some(kb)) => {
            let i = choose|i: int|
                0 <= i < a.len() && #[trigger] dup_at(a, i) && a[i].spec_kind() == ka.0 && a[i].spec_book() == ka.1;
            lemma_dup_transfers(b, a, i);
            let j = choose|j: int|
                0 <= j < b.len() && #[trigger] dup_at(b, j) && b[j].spec_kind() == kb.0 && b[j].spec_book() == kb.1;
            lemma_dup_transfers(a, b, j);
            let i3 = choose|i3: int|
                0 <= i3 < b.len() && #[trigger] dup_at(b, i3) && b[i3].spec_kind() == ka.0 && b[i3].spec_book() == ka.1;
            let j3 = choose|j3: int|
                0 <= j3 < a.len() && #[trigger] dup_at(a, j3) && a[j3].spec_kind() == kb.0 && a[j3].spec_book() == kb.1;
            lemma_key_total(ka.0, ka.1, kb.0, kb.1);
        },
    }
}

/// The first orphan from `i` on is an orphan with no orphan before it.
proof fn lemma_first_orphan_some<'a>(ss: Seq<ContainerSection<'a>>, i: int)
    requires
        0 <= i <= ss.len(),
    ensures
        first_orphan_from(ss, i) matches Some(k) ==> i <= k < ss.len() && orphan_at(ss, k) && forall|j: int|
            i <= j < k ==> !#[trigger] orphan_at(ss, j),
    decreases ss.len() - i,
{
    if i < ss.len() {
        lemma_first_orphan_some(ss, i + 1);
    }
}

/// A section of `b` is an orphan exactly when its counterpart in `a` is.
proof fn lemma_orphan_transfers<'a>(a: Seq<ContainerSection<'a>>, b: Seq<ContainerSection<'a>>, i: int, i2: int)
    requires
        same_by_kind(a, b),
        0 <= i < b.len(),
        0 <= i2 < a.len(),
        a[i2] == b[i],
        orphan_at(b, i),
    ensures
        orphan_at(a, i2),
{
    assert(same_by_kind(b, a));
    if exists|j2: int| 0 <= j2 < a.len() && #[trigger] token_pair(a, i2, j2) {
        let j2 = choose|j2: int| 0 <= j2 < a.len() && #[trigger] token_pair(a, i2, j2);
        lemma_member_of_other(b, a, j2);
        let j = choose|j: int|
            0 <= j < b.len() && b[j] == a[j2] && pos(b, a[j2].spec_kind(), j) == pos(a, a[j2].spec_kind(), j2);
        assert(token_pair(b, i, j));
    }
}

/// An earlier position among the sections of one kind is an earlier index.
proof fn lemma_pos_order<'a>(ss: Seq<ContainerSection<'a>>, kind: SectionKind, i: int, j: int)
    requires
        0 <= i < ss.len(),
        0 <= j < ss.len(),
        ss[i].spec_kind() == kind,
        ss[j].spec_kind() == kind,
        pos(ss, kind, i) < pos(ss, kind, j),
    ensures
        i < j,
{
    if j < i {
        lemma_pos_distinct(ss, kind, j, i);
    }
}

/// Both lists name the first orphaned finding section's book, or neither has
/// an orphan.
proof fn lemma_first_orphan_same<'a>(a: Seq<ContainerSection<'a>>, b: Seq<ContainerSection<'a>>)
    requires
        same_by_kind(a, b),
    ensures
        (first_orphan_from(a, 0) is Some) == (first_orphan_from(b, 0) is Some),
        first_orphan_from(a, 0) is Some ==> a[first_orphan_from(a, 0)->0] == b[first_orphan_from(b, 0)->0],
{
    assert(same_by_kind(b, a));
    lemma_first_orphan_none(a, 0);
    lemma_first_orphan_none(b, 0);
    lemma_first_orphan_some(a, 0);
    lemma_first_orphan_some(b, 0);
    let fk = SectionKind::Finding;
    if let Some(ia) = first_orphan_from(a, 0) {
        lemma_member_of_other(b, a, ia);
        let ib = choose|ib: int| 0 <= ib < b.len() && b[ib] == a[ia] && pos(b, fk, ib) == pos(a, fk, ia);
        lemma_orphan_transfers(b, a, ia, ib);
        if let Some(jb) = first_orphan_from(b, 0) {
            lemma_member_of_other(a, b, jb);
            let ja = choose|ja: int| 0 <= ja < a.len() && a[ja] == b[jb] && pos(a, fk, ja) == pos(b, fk, jb);
            lemma_orphan_transfers(a, b, jb, ja);
            if jb < ib {
                lemma_pos_distinct(b, fk, jb, ib);
                lemma_pos_order(a, fk, ja, ia);
            } else if ib < jb {
                lemma_pos_distinct(b, fk, ib, jb);
            }
            assert(jb == ib);
        }
    } else if let Some(jb) = first_orphan_from(b, 0) {
        lemma_member_of_other(a, b, jb);
        let ja = choose|ja: int| 0 <= ja < a.len() && a[ja] == b[jb] && pos(a, fk, ja) == pos(b, fk, jb);
        lemma_orphan_transfers(a, b, jb, ja);
    }
}

/// The canonical layout is a function of the sections of each kind in their
/// order: two section lists that list the same token sections in the same
/// order and the same finding sections in the same order, however the two
/// kinds are interleaved, write the same bytes, or are refused with the same
/// error.
pub proof fn law_interleaving_is_invisible<'a>(
    snapshot_id: u64,
    a: Seq<ContainerSection<'a>>,
    b: Seq<ContainerSection<'a>>,
)
    requires
        same_by_kind(a, b),
    ensures
        spec_write_container_sections(snapshot_id, b) == spec_write_container_sections(snapshot_id, a),
{
    reveal(spec_canonical_order);
    lemma_least_dup_same(a, b);
    lemma_first_orphan_same(a, b);
    assert(spec_canonical_order(b) == spec_canonical_order(a));
}

} // verus!
