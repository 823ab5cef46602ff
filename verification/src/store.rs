//! The transactional in-memory store: an arena of template and node records
//! keyed by identifier, with the ordering engine that keeps every sibling
//! chain intact across create, move, update and delete.

use vstd::prelude::*;
use crate::chain::{
    CKey, IdV, NodeV, chain_ok, chains_ok, key_of, lemma_detach, lemma_insert_at, node_v,
    stitch_neighbors_m, with_next, with_prev,
};
use crate::error::Error;
use crate::ident::Identifier;
use crate::nodes::{
    Node, NodeDesc, NodePos, TemplateNode, category_of, kind_of, lemma_payload_same_refl,
    lemma_payload_same_trans, payload_same, pos_of,
};
use crate::template::{NodePlacement, Template};
use crate::types::{LayoutKind, PackageId, Parent, ParentV};

verus! {

// ---------------------------------------------------------------------------
// From the flat record vectors to the mathematical maps.
// ---------------------------------------------------------------------------

/// The position attributes of every node record, keyed by id.
pub open spec fn pos_map(s: Seq<Node>) -> Map<IdV, NodeV>
    decreases s.len(),
{
    if s.len() == 0 {
        Map::empty()
    } else {
        pos_map(s.drop_last()).insert(s.last().id@, node_v(s.last()))
    }
}

/// The payload of every node record, keyed by id.
pub open spec fn desc_map(s: Seq<Node>) -> Map<IdV, NodeDesc>
    decreases s.len(),
{
    if s.len() == 0 {
        Map::empty()
    } else {
        desc_map(s.drop_last()).insert(s.last().id@, s.last().node)
    }
}

/// Every template record, keyed by id.
pub open spec fn tpl_map(s: Seq<Template>) -> Map<IdV, Template>
    decreases s.len(),
{
    if s.len() == 0 {
        Map::empty()
    } else {
        tpl_map(s.drop_last()).insert(s.last().id@, s.last())
    }
}

pub open spec fn uniq_nodes(s: Seq<Node>) -> bool {
    forall|i: int, j: int| #![trigger s[i], s[j]] 0 <= i < j < s.len() ==> s[i].id@ != s[j].id@
}

pub open spec fn uniq_templates(s: Seq<Template>) -> bool {
    forall|i: int, j: int|
        #![trigger s[i], s[j]]
        0 <= i < j < s.len() ==> s[i].id@ != s[j].id@ && s[i].name@ != s[j].name@
            && s[i].friendly_id@ != s[j].friendly_id@
}

/// A record's indexed position fields always mirror the position embedded in
/// its payload.
pub open spec fn pos_sync(n: Node) -> bool {
    &&& pos_of(n.node).id@ == n.id@
    &&& pos_of(n.node).parent@ == n.parent@
    &&& pos_of(n.node).previous.deep_view() == n.previous.deep_view()
    &&& pos_of(n.node).next.deep_view() == n.next.deep_view()
}

pub open spec fn all_pos_sync(s: Seq<Node>) -> bool {
    forall|i: int| 0 <= i < s.len() ==> pos_sync(#[trigger] s[i])
}

proof fn lemma_node_maps_get(s: Seq<Node>, i: int)
    requires
        uniq_nodes(s),
        0 <= i < s.len(),
    ensures
        pos_map(s).dom().contains(s[i].id@),
        pos_map(s)[s[i].id@] == node_v(s[i]),
        desc_map(s).dom().contains(s[i].id@),
        desc_map(s)[s[i].id@] == s[i].node,
    decreases s.len(),
{
    if i == s.len() - 1 {
    } else {
        assert(s.drop_last()[i] == s[i]);
        lemma_node_maps_get(s.drop_last(), i);
        assert(s[i].id@ != s.last().id@);
    }
}

proof fn lemma_node_maps_absent(s: Seq<Node>, id: IdV)
    requires
        forall|i: int| 0 <= i < s.len() ==> (#[trigger] s[i]).id@ != id,
    ensures
        !pos_map(s).dom().contains(id),
        !desc_map(s).dom().contains(id),
    decreases s.len(),
{
    if s.len() > 0 {
        assert forall|i: int| 0 <= i < s.drop_last().len() implies (#[trigger] s.drop_last()[
            i
        ]).id@ != id by {
            assert(s.drop_last()[i] == s[i]);
        }
        lemma_node_maps_absent(s.drop_last(), id);
        assert(s.last().id@ != id);
    }
}

proof fn lemma_node_maps_member(s: Seq<Node>, id: IdV)
    requires
        pos_map(s).dom().contains(id) || desc_map(s).dom().contains(id),
    ensures
        exists|i: int| 0 <= i < s.len() && (#[trigger] s[i]).id@ == id,
    decreases s.len(),
{
    if s.len() > 0 {
        if s.last().id@ == id {
            assert(s[s.len() - 1].id@ == id);
        } else {
            lemma_node_maps_member(s.drop_last(), id);
            let i = choose|i: int| 0 <= i < s.drop_last().len() && (#[trigger] s.drop_last()[i]).id@
                == id;
            assert(s[i].id@ == id);
        }
    }
}

proof fn lemma_node_maps_doms(s: Seq<Node>)
    ensures
        pos_map(s).dom() =~= desc_map(s).dom(),
    decreases s.len(),
{
    if s.len() > 0 {
        lemma_node_maps_doms(s.drop_last());
    }
}

proof fn lemma_node_maps_push(s: Seq<Node>, n: Node)
    ensures
        pos_map(s.push(n)) == pos_map(s).insert(n.id@, node_v(n)),
        desc_map(s.push(n)) == desc_map(s).insert(n.id@, n.node),
{
    assert(s.push(n).drop_last() =~= s);
    assert(s.push(n).last() == n);
}

proof fn lemma_node_maps_remove(s: Seq<Node>, i: int)
    requires
        uniq_nodes(s),
        0 <= i < s.len(),
    ensures
        pos_map(s.remove(i)) =~= pos_map(s).remove(s[i].id@),
        desc_map(s.remove(i)) =~= desc_map(s).remove(s[i].id@),
    decreases s.len(),
{
    let id = s[i].id@;
    if i == s.len() - 1 {
        assert(s.remove(i) =~= s.drop_last());
        assert forall|j: int| 0 <= j < s.drop_last().len() implies (#[trigger] s.drop_last()[
            j
        ]).id@ != id by {
            assert(s.drop_last()[j] == s[j]);
        }
        lemma_node_maps_absent(s.drop_last(), id);
    } else {
        assert forall|a: int, b: int|
            #![trigger s.drop_last()[a], s.drop_last()[b]]
            0 <= a < b < s.drop_last().len() implies s.drop_last()[a].id@
            != s.drop_last()[b].id@ by {
            assert(s.drop_last()[a] == s[a]);
            assert(s.drop_last()[b] == s[b]);
        }
        lemma_node_maps_remove(s.drop_last(), i);
        assert(s.remove(i).drop_last() =~= s.drop_last().remove(i));
        assert(s.remove(i).last() == s.last());
        assert(s.last().id@ != id);
        assert(pos_map(s.remove(i)) =~= pos_map(s.drop_last().remove(i)).insert(
            s.last().id@,
            node_v(s.last()),
        ));
        assert(pos_map(s.drop_last()).remove(id).insert(s.last().id@, node_v(s.last()))
            =~= pos_map(s.drop_last()).insert(s.last().id@, node_v(s.last())).remove(id));
        assert(desc_map(s.drop_last()).remove(id).insert(s.last().id@, s.last().node)
            =~= desc_map(s.drop_last()).insert(s.last().id@, s.last().node).remove(id));
    }
}

proof fn lemma_tpl_map_get(s: Seq<Template>, i: int)
    requires
        uniq_templates(s),
        0 <= i < s.len(),
    ensures
        tpl_map(s).dom().contains(s[i].id@),
        tpl_map(s)[s[i].id@] == s[i],
    decreases s.len(),
{
    if i == s.len() - 1 {
    } else {
        assert(s.drop_last()[i] == s[i]);
        assert forall|a: int, b: int|
            #![trigger s.drop_last()[a], s.drop_last()[b]]
            0 <= a < b < s.drop_last().len() implies (s.drop_last()[a].id@
            != s.drop_last()[b].id@ && s.drop_last()[a].name@ != s.drop_last()[b].name@
            && s.drop_last()[a].friendly_id@ != s.drop_last()[b].friendly_id@) by {
            assert(s.drop_last()[a] == s[a]);
            assert(s.drop_last()[b] == s[b]);
        }
        lemma_tpl_map_get(s.drop_last(), i);
        assert(s[i].id@ != s.last().id@);
    }
}

proof fn lemma_tpl_map_absent(s: Seq<Template>, id: IdV)
    requires
        forall|i: int| 0 <= i < s.len() ==> (#[trigger] s[i]).id@ != id,
    ensures
        !tpl_map(s).dom().contains(id),
    decreases s.len(),
{
    if s.len() > 0 {
        assert forall|i: int| 0 <= i < s.drop_last().len() implies (#[trigger] s.drop_last()[
            i
        ]).id@ != id by {
            assert(s.drop_last()[i] == s[i]);
        }
        lemma_tpl_map_absent(s.drop_last(), id);
        assert(s.last().id@ != id);
    }
}

proof fn lemma_tpl_map_member(s: Seq<Template>, id: IdV)
    requires
        tpl_map(s).dom().contains(id),
    ensures
        exists|i: int| 0 <= i < s.len() && (#[trigger] s[i]).id@ == id,
    decreases s.len(),
{
    if s.len() > 0 {
        if s.last().id@ == id {
            assert(s[s.len() - 1].id@ == id);
        } else {
            lemma_tpl_map_member(s.drop_last(), id);
            let i = choose|i: int|
                0 <= i < s.drop_last().len() && (#[trigger] s.drop_last()[i]).id@ == id;
            assert(s[i].id@ == id);
        }
    }
}

proof fn lemma_tpl_map_push(s: Seq<Template>, t: Template)
    ensures
        tpl_map(s.push(t)) == tpl_map(s).insert(t.id@, t),
{
    assert(s.push(t).drop_last() =~= s);
    assert(s.push(t).last() == t);
}

proof fn lemma_tpl_map_remove(s: Seq<Template>, i: int)
    requires
        uniq_templates(s),
        0 <= i < s.len(),
    ensures
        tpl_map(s.remove(i)) =~= tpl_map(s).remove(s[i].id@),
    decreases s.len(),
{
    let id = s[i].id@;
    if i == s.len() - 1 {
        assert(s.remove(i) =~= s.drop_last());
        assert forall|j: int| 0 <= j < s.drop_last().len() implies (#[trigger] s.drop_last()[
            j
        ]).id@ != id by {
            assert(s.drop_last()[j] == s[j]);
        }
        lemma_tpl_map_absent(s.drop_last(), id);
    } else {
        assert forall|a: int, b: int|
            #![trigger s.drop_last()[a], s.drop_last()[b]]
            0 <= a < b < s.drop_last().len() implies (s.drop_last()[a].id@
            != s.drop_last()[b].id@ && s.drop_last()[a].name@ != s.drop_last()[b].name@
            && s.drop_last()[a].friendly_id@ != s.drop_last()[b].friendly_id@) by {
            assert(s.drop_last()[a] == s[a]);
            assert(s.drop_last()[b] == s[b]);
        }
        lemma_tpl_map_remove(s.drop_last(), i);
        assert(s.remove(i).drop_last() =~= s.drop_last().remove(i));
        assert(s.remove(i).last() == s.last());
        assert(s.last().id@ != id);
        assert(tpl_map(s.drop_last()).remove(id).insert(s.last().id@, s.last()) =~= tpl_map(
            s.drop_last(),
        ).insert(s.last().id@, s.last()).remove(id));
    }
}

// ---------------------------------------------------------------------------
// The store itself.
// ---------------------------------------------------------------------------

/// Whether some template in the registry already carries this name or this
/// friendly id.
pub open spec fn name_taken(tm: Map<IdV, Template>, name: Seq<char>, fid: Seq<char>) -> bool {
    exists|id: IdV|
        #[trigger] tm.dom().contains(id) && (tm[id].name@ == name || tm[id].friendly_id@ == fid)
}

/// Whether the collection `k` has no member at all.
pub open spec fn collection_empty(m: Map<IdV, NodeV>, k: CKey) -> bool {
    forall|id: IdV| #[trigger] m.dom().contains(id) ==> key_of(m[id]) != k
}

// ---------------------------------------------------------------------------
// What each ordering operation does to the position map.
// ---------------------------------------------------------------------------

/// Splicing `x` in right after `a`: `a`'s old successor points back at `x`,
/// `a` points forward at `x`, and `x` sits between them in `a`'s collection.
pub open spec fn attach_after_m(m: Map<IdV, NodeV>, x: IdV, a: IdV, template: IdV) -> Map<
    IdV,
    NodeV,
> {
    let na = m[a].next;
    let m1 = match na {
        Some(nid) => m.insert(nid, with_prev(m[nid], Some(x))),
        None => m,
    };
    let m2 = m1.insert(a, with_next(m1[a], Some(x)));
    m2.insert(x, NodeV { template, parent: m[a].parent, previous: Some(a), next: na })
}

/// Splicing `x` in right before `b`: symmetric to `attach_after_m`.
pub open spec fn attach_before_m(m: Map<IdV, NodeV>, x: IdV, b: IdV, template: IdV) -> Map<
    IdV,
    NodeV,
> {
    let pb = m[b].previous;
    let m1 = m.insert(b, with_prev(m[b], Some(x)));
    let m2 = match pb {
        Some(pid) => m1.insert(pid, with_next(m1[pid], Some(x))),
        None => m1,
    };
    m2.insert(x, NodeV { template, parent: m[b].parent, previous: pb, next: Some(b) })
}

/// Placing `x` as the sole member of a collection.
pub open spec fn attach_into_m(
    m: Map<IdV, NodeV>,
    x: IdV,
    template: IdV,
    parent: ParentV,
) -> Map<IdV, NodeV> {
    m.insert(x, NodeV { template, parent, previous: None, next: None })
}

/// Moving `x` behind `a`: stitch it out of its old chain, then splice it in
/// after `a`.
pub open spec fn move_after_m(m: Map<IdV, NodeV>, x: IdV, a: IdV) -> Map<IdV, NodeV> {
    attach_after_m(stitch_neighbors_m(m, x), x, a, m[x].template)
}

/// Moving `x` in front of `b`.
pub open spec fn move_before_m(m: Map<IdV, NodeV>, x: IdV, b: IdV) -> Map<IdV, NodeV> {
    attach_before_m(stitch_neighbors_m(m, x), x, b, m[x].template)
}

/// Moving `x` into an empty collection as its sole member.
pub open spec fn move_into_m(m: Map<IdV, NodeV>, x: IdV, parent: ParentV) -> Map<IdV, NodeV> {
    attach_into_m(stitch_neighbors_m(m, x), x, m[x].template, parent)
}

/// Deleting `x`: its neighbours are re-linked to each other and its record is
/// gone.
pub open spec fn delete_m(m: Map<IdV, NodeV>, x: IdV) -> Map<IdV, NodeV> {
    stitch_neighbors_m(m, x).remove(x)
}

/// The store is ready to splice `x` somewhere: every listed chain is well
/// linked, none of them mentions `x`, and every record but `x` sits in the
/// chain of its collection.
pub open spec fn chains_ready(m: Map<IdV, NodeV>, ord: Map<CKey, Seq<IdV>>, x: IdV) -> bool {
    &&& forall|k: CKey| ord.dom().contains(k) ==> chain_ok(m, k, #[trigger] ord[k])
    &&& forall|k: CKey| ord.dom().contains(k) ==> !(#[trigger] ord[k]).contains(x)
    &&& forall|id: IdV| #[trigger]
        m.dom().contains(id) && id != x ==> ord.dom().contains(key_of(m[id])) && ord[key_of(
            m[id],
        )].contains(id)
}

/// A record that is not stored yet can be spliced anywhere.
proof fn lemma_fresh_ready(m: Map<IdV, NodeV>, ord: Map<CKey, Seq<IdV>>, x: IdV)
    requires
        chains_ok(m, ord),
        !m.dom().contains(x),
    ensures
        chains_ready(m, ord, x),
{
    assert forall|k: CKey| ord.dom().contains(k) implies !(#[trigger] ord[k]).contains(x) by {
        if ord[k].contains(x) {
            let i = choose|i: int| 0 <= i < ord[k].len() && ord[k][i] == x;
            assert(m.dom().contains(ord[k][i]));
        }
    }
}

/// Stitching `x`'s neighbours together detaches `x`: afterwards the store is
/// ready to splice `x` elsewhere, with `x`'s own record untouched and every
/// record still in its collection.
proof fn lemma_stitch_chains(m0: Map<IdV, NodeV>, ord0: Map<CKey, Seq<IdV>>, x: IdV) -> (ord1: Map<
    CKey,
    Seq<IdV>,
>)
    requires
        chains_ok(m0, ord0),
        m0.dom().contains(x),
    ensures
        ({
            let m1 = stitch_neighbors_m(m0, x);
            &&& m1.dom() == m0.dom()
            &&& m1[x] == m0[x]
            &&& forall|id: IdV| #[trigger]
                m0.dom().contains(id) ==> key_of(m1[id]) == key_of(m0[id])
            &&& chains_ready(m1, ord1, x)
        }),
{
    let k1 = key_of(m0[x]);
    let s1 = ord0[k1];
    assert(ord0.dom().contains(k1) && s1.contains(x));
    let xi = choose|i: int| 0 <= i < s1.len() && s1[i] == x;
    lemma_detach(m0, ord0, x, xi);
    let m1 = stitch_neighbors_m(m0, x);
    let s1p = s1.remove(xi);
    let ord1 = ord0.insert(k1, s1p);
    s1.remove_ensures(xi);
    // the shortened chain no longer mentions x
    assert(!s1p.contains(x)) by {
        if s1p.contains(x) {
            let j = choose|j: int| 0 <= j < s1p.len() && s1p[j] == x;
            let orig = if j < xi {
                j
            } else {
                j + 1
            };
            assert(s1[orig] == x);
            assert(s1[xi] == x);
        }
    }
    assert forall|k: CKey| ord1.dom().contains(k) implies chain_ok(m1, k, #[trigger] ord1[k]) by {
        if k != k1 {
            assert(chain_ok(m1, k, ord0[k]));
        }
    }
    assert forall|k: CKey| ord1.dom().contains(k) implies !(#[trigger] ord1[k]).contains(x) by {
        if k != k1 {
            if ord0[k].contains(x) {
                let i = choose|i: int| 0 <= i < ord0[k].len() && ord0[k][i] == x;
                assert(key_of(m0[ord0[k][i]]) == k);
            }
        }
    }
    assert forall|id: IdV| #[trigger] m1.dom().contains(id) && id != x implies
        ord1.dom().contains(key_of(m1[id])) && ord1[key_of(m1[id])].contains(id) by {
        let k = key_of(m0[id]);
        assert(ord0[k].contains(id));
        if k == k1 {
            let j = choose|j: int| 0 <= j < s1.len() && s1[j] == id;
            assert(j != xi);
            let newj = if j < xi {
                j
            } else {
                j - 1
            };
            assert(s1p[newj] == id);
        }
    }
    ord1
}

/// Splicing `x` in after `a` over a ready store keeps every chain intact.
proof fn lemma_close_after(
    m: Map<IdV, NodeV>,
    ord: Map<CKey, Seq<IdV>>,
    x: IdV,
    a: IdV,
    tpl: IdV,
) -> (ord2: Map<CKey, Seq<IdV>>)
    requires
        chains_ready(m, ord, x),
        m.dom().contains(a),
        a != x,
        tpl == m[a].template,
    ensures
        chains_ok(attach_after_m(m, x, a, tpl), ord2),
        attach_after_m(m, x, a, tpl).dom() == m.dom().insert(x),
{
    let k2 = key_of(m[a]);
    let s2 = ord[k2];
    assert(ord.dom().contains(k2) && s2.contains(a));
    let j = choose|j: int| 0 <= j < s2.len() && s2[j] == a;
    assert(chain_ok(m, k2, s2));
    assert(!s2.contains(x));
    lemma_insert_at(m, k2, s2, x, j + 1);
    let n = s2.len() as int;
    let nxt = if j + 1 == n {
        None
    } else {
        Some(s2[j + 1])
    };
    assert(m[a].next == nxt);
    let m3 = attach_after_m(m, x, a, tpl);
    let mm1 = match nxt {
        Some(nid) => m.insert(nid, with_prev(m[nid], Some(x))),
        None => m,
    };
    assert(m3 == (match nxt {
        Some(nid) => m.insert(nid, with_prev(m[nid], Some(x))),
        None => m,
    }).insert(a, with_next(mm1[a], Some(x))).insert(
        x,
        NodeV { template: k2.template, parent: k2.parent, previous: Some(a), next: nxt },
    ));
    let s3 = s2.insert(j + 1, x);
    let ord2 = ord.insert(k2, s3);
    s2.insert_ensures(j + 1, x);
    assert(chain_ok(m3, k2, s3));
    assert forall|k: CKey| ord2.dom().contains(k) implies chain_ok(m3, k, #[trigger] ord2[k]) by {
        if k != k2 {
            assert(chain_ok(m, k, ord[k]));
            assert(!ord[k].contains(x));
            assert forall|i: int| 0 <= i < ord[k].len() implies m3[#[trigger] ord[k][i]]
                == m[ord[k][i]] by {
                assert(key_of(m[ord[k][i]]) == k);
                assert(ord[k][i] != x);
            }
        }
    }
    assert forall|id: IdV| #[trigger] m3.dom().contains(id) implies ord2.dom().contains(
        key_of(m3[id]),
    ) && ord2[key_of(m3[id])].contains(id) by {
        if id == x {
            assert(key_of(m3[x]) == k2);
            assert(s3[j + 1] == x);
        } else {
            assert(m.dom().contains(id));
            let k = key_of(m[id]);
            assert(key_of(m3[id]) == k);
            assert(ord[k].contains(id));
            if k == k2 {
                let i0 = choose|i0: int| 0 <= i0 < s2.len() && s2[i0] == id;
                let i1 = if i0 < j + 1 {
                    i0
                } else {
                    i0 + 1
                };
                assert(s3[i1] == id);
            }
        }
    }
    assert(m3.dom() =~= m.dom().insert(x));
    ord2
}

/// Splicing `x` in before `b` over a ready store keeps every chain intact.
proof fn lemma_close_before(
    m: Map<IdV, NodeV>,
    ord: Map<CKey, Seq<IdV>>,
    x: IdV,
    b: IdV,
    tpl: IdV,
) -> (ord2: Map<CKey, Seq<IdV>>)
    requires
        chains_ready(m, ord, x),
        m.dom().contains(b),
        b != x,
        tpl == m[b].template,
    ensures
        chains_ok(attach_before_m(m, x, b, tpl), ord2),
        attach_before_m(m, x, b, tpl).dom() == m.dom().insert(x),
{
    let k2 = key_of(m[b]);
    let s2 = ord[k2];
    assert(ord.dom().contains(k2) && s2.contains(b));
    let j = choose|j: int| 0 <= j < s2.len() && s2[j] == b;
    assert(chain_ok(m, k2, s2));
    assert(!s2.contains(x));
    lemma_insert_at(m, k2, s2, x, j);
    let prv = if j == 0 {
        None
    } else {
        Some(s2[j - 1])
    };
    assert(m[b].previous == prv);
    let m3 = attach_before_m(m, x, b, tpl);
    let mm1 = m.insert(b, with_prev(m[b], Some(x)));
    assert(m3 == (match prv {
        Some(pid) => mm1.insert(pid, with_next(mm1[pid], Some(x))),
        None => mm1,
    }).insert(x, NodeV { template: k2.template, parent: k2.parent, previous: prv, next: Some(b) }));
    let s3 = s2.insert(j, x);
    let ord2 = ord.insert(k2, s3);
    s2.insert_ensures(j, x);
    assert(chain_ok(m3, k2, s3));
    assert forall|k: CKey| ord2.dom().contains(k) implies chain_ok(m3, k, #[trigger] ord2[k]) by {
        if k != k2 {
            assert(chain_ok(m, k, ord[k]));
            assert(!ord[k].contains(x));
            assert forall|i: int| 0 <= i < ord[k].len() implies m3[#[trigger] ord[k][i]]
                == m[ord[k][i]] by {
                assert(key_of(m[ord[k][i]]) == k);
                assert(ord[k][i] != x);
            }
        }
    }
    assert forall|id: IdV| #[trigger] m3.dom().contains(id) implies ord2.dom().contains(
        key_of(m3[id]),
    ) && ord2[key_of(m3[id])].contains(id) by {
        if id == x {
            assert(key_of(m3[x]) == k2);
            assert(s3[j] == x);
        } else {
            assert(m.dom().contains(id));
            let k = key_of(m[id]);
            assert(key_of(m3[id]) == k);
            assert(ord[k].contains(id));
            if k == k2 {
                let i0 = choose|i0: int| 0 <= i0 < s2.len() && s2[i0] == id;
                let i1 = if i0 < j {
                    i0
                } else {
                    i0 + 1
                };
                assert(s3[i1] == id);
            }
        }
    }
    assert(m3.dom() =~= m.dom().insert(x));
    ord2
}

/// Placing `x` alone into an empty collection over a ready store keeps every
/// chain intact.
proof fn lemma_close_into(
    m: Map<IdV, NodeV>,
    ord: Map<CKey, Seq<IdV>>,
    x: IdV,
    tpl: IdV,
    parent: ParentV,
) -> (ord2: Map<CKey, Seq<IdV>>)
    requires
        chains_ready(m, ord, x),
        collection_empty(m, CKey { template: tpl, parent }) || (m.dom().contains(x) && forall|
            id: IdV,
        | #[trigger]
            m.dom().contains(id) && id != x ==> key_of(m[id]) != (CKey { template: tpl, parent })),
    ensures
        chains_ok(attach_into_m(m, x, tpl, parent), ord2),
        attach_into_m(m, x, tpl, parent).dom() == m.dom().insert(x),
{
    let k2 = CKey { template: tpl, parent };
    let m3 = attach_into_m(m, x, tpl, parent);
    let s3 = seq![x];
    let ord2 = ord.insert(k2, s3);
    assert(chain_ok(m3, k2, s3)) by {
        assert(s3[0] == x);
        assert(m3[x] == (NodeV { template: tpl, parent, previous: None, next: None }));
        assert forall|i: int, j: int| #![trigger s3[i], s3[j]] 0 <= i < j < s3.len() implies s3[i]
            != s3[j] by {}
    }
    assert forall|k: CKey| ord2.dom().contains(k) implies chain_ok(m3, k, #[trigger] ord2[k]) by {
        if k != k2 {
            assert(chain_ok(m, k, ord[k]));
            assert(!ord[k].contains(x));
            assert forall|i: int| 0 <= i < ord[k].len() implies m3[#[trigger] ord[k][i]]
                == m[ord[k][i]] by {
                assert(m.dom().contains(ord[k][i]));
                assert(ord[k][i] != x);
            }
        }
    }
    assert forall|id: IdV| #[trigger] m3.dom().contains(id) implies ord2.dom().contains(
        key_of(m3[id]),
    ) && ord2[key_of(m3[id])].contains(id) by {
        if id == x {
            assert(key_of(m3[x]) == k2);
            assert(s3[0] == x);
        } else {
            assert(m.dom().contains(id));
            let k = key_of(m[id]);
            assert(key_of(m3[id]) == k);
            assert(k != k2);
            assert(ord[k].contains(id));
        }
    }
    assert(m3.dom() =~= m.dom().insert(x));
    ord2
}

/// Whether a creation placement can be satisfied: its reference node exists
/// under the right template, or its target collection is empty.
pub open spec fn placement_ok(
    m: Map<IdV, NodeV>,
    tpl: IdV,
    placement: NodePlacement,
) -> bool {
    match placement {
        NodePlacement::After(a) => m.dom().contains(a@) && m[a@].template == tpl,
        NodePlacement::Before(b) => m.dom().contains(b@) && m[b@].template == tpl,
        NodePlacement::Into(p) => collection_empty(m, CKey { template: tpl, parent: p@ }),
    }
}

/// The position map that a creation placement produces.
pub open spec fn create_m(
    m: Map<IdV, NodeV>,
    x: IdV,
    tpl: IdV,
    placement: NodePlacement,
) -> Map<IdV, NodeV> {
    match placement {
        NodePlacement::After(a) => attach_after_m(m, x, a@, tpl),
        NodePlacement::Before(b) => attach_before_m(m, x, b@, tpl),
        NodePlacement::Into(p) => attach_into_m(m, x, tpl, p@),
    }
}

fn clone_opt(o: &Option<Identifier>) -> (r: Option<Identifier>)
    ensures
        r == *o,
{
    match o {
        Some(x) => Some(x.clone()),
        None => None,
    }
}

/// The open project's store: templates and nodes as flat records, with the
/// chain order of every collection carried as a ghost witness.
pub struct Store {
    templates: Vec<Template>,
    nodes: Vec<Node>,
    order: Ghost<Map<CKey, Seq<IdV>>>,
}

impl Store {
    /// The registry: every template record, keyed by id.
    pub closed spec fn templates_map(self) -> Map<IdV, Template> {
        tpl_map(self.templates@)
    }

    /// The position attributes of every node record, keyed by id.
    pub closed spec fn nodes_map(self) -> Map<IdV, NodeV> {
        pos_map(self.nodes@)
    }

    /// The payload of every node record, keyed by id.
    pub closed spec fn descs(self) -> Map<IdV, NodeDesc> {
        desc_map(self.nodes@)
    }

    /// The store's invariant: records are uniquely keyed, template names and
    /// friendly ids are unique, every record's indexed position mirrors its
    /// payload, and every collection's sibling chain is intact.
    pub closed spec fn wf(self) -> bool {
        &&& uniq_nodes(self.nodes@)
        &&& uniq_templates(self.templates@)
        &&& all_pos_sync(self.nodes@)
        &&& chains_ok(pos_map(self.nodes@), self.order@)
    }

    /// An empty store.
    pub fn new() -> (s: Store)
        ensures
            s.wf(),
            s.templates_map() == Map::<IdV, Template>::empty(),
            s.nodes_map() == Map::<IdV, NodeV>::empty(),
            s.descs() == Map::<IdV, NodeDesc>::empty(),
    {
        Store { templates: Vec::new(), nodes: Vec::new(), order: Ghost(Map::empty()) }
    }

    // -----------------------------------------------------------------------
    // Record lookup and replacement on the flat vectors.
    // -----------------------------------------------------------------------

    fn find_node(&self, id: &Identifier) -> (r: Option<usize>)
        ensures
            match r {
                Some(i) => i < self.nodes@.len() && self.nodes@[i as int].id@ == id@,
                None => forall|j: int|
                    0 <= j < self.nodes@.len() ==> (#[trigger] self.nodes@[j]).id@ != id@,
            },
    {
        let mut i: usize = 0;
        while i < self.nodes.len()
            invariant
                i <= self.nodes@.len(),
                forall|j: int| 0 <= j < i ==> (#[trigger] self.nodes@[j]).id@ != id@,
            decreases self.nodes@.len() - i,
        {
            if self.nodes[i].id == *id {
                return Some(i);
            }
            i += 1;
        }
        None
    }

    fn find_template(&self, id: &Identifier) -> (r: Option<usize>)
        ensures
            match r {
                Some(i) => i < self.templates@.len() && self.templates@[i as int].id@ == id@,
                None => forall|j: int|
                    0 <= j < self.templates@.len() ==> (#[trigger] self.templates@[j]).id@ != id@,
            },
    {
        let mut i: usize = 0;
        while i < self.templates.len()
            invariant
                i <= self.templates@.len(),
                forall|j: int| 0 <= j < i ==> (#[trigger] self.templates@[j]).id@ != id@,
            decreases self.templates@.len() - i,
        {
            if self.templates[i].id == *id {
                return Some(i);
            }
            i += 1;
        }
        None
    }

    /// Inserts or replaces the node record keyed by `n`'s id.
    fn put_node(&mut self, n: Node)
        requires
            uniq_nodes(old(self).nodes@),
        ensures
            uniq_nodes(final(self).nodes@),
            pos_map(final(self).nodes@) == pos_map(old(self).nodes@).insert(n.id@, node_v(n)),
            desc_map(final(self).nodes@) == desc_map(old(self).nodes@).insert(n.id@, n.node),
            final(self).templates@ == old(self).templates@,
            final(self).order == old(self).order,
            all_pos_sync(old(self).nodes@) && pos_sync(n) ==> all_pos_sync(final(self).nodes@),
    {
        let ghost s0 = self.nodes@;
        match self.find_node(&n.id) {
            Some(i) => {
                proof {
                    lemma_node_maps_remove(s0, i as int);
                }
                self.nodes.remove(i);
                proof {
                    let s1 = self.nodes@;
                    assert forall|a: int, b: int|
                        #![trigger s1[a], s1[b]]
                        0 <= a < b < s1.len() implies s1[a].id@ != s1[b].id@ by {
                        s0.remove_ensures(i as int);
                    }
                    assert forall|j: int| 0 <= j < s1.len() implies (#[trigger] s1[j]).id@
                        != n.id@ by {
                        s0.remove_ensures(i as int);
                        let orig = if j < i as int {
                            j
                        } else {
                            j + 1
                        };
                        assert(s1[j] == s0[orig]);
                        if orig != i as int {
                            assert(s0[orig].id@ != s0[i as int].id@);
                        }
                    }
                    assert(all_pos_sync(s0) ==> all_pos_sync(s1)) by {
                        if all_pos_sync(s0) {
                            assert forall|j: int| 0 <= j < s1.len() implies pos_sync(
                                #[trigger] s1[j],
                            ) by {
                                s0.remove_ensures(i as int);
                                let orig = if j < i as int {
                                    j
                                } else {
                                    j + 1
                                };
                                assert(s1[j] == s0[orig]);
                            }
                        }
                    }
                }
            },
            None => {
                proof {
                    lemma_node_maps_absent(s0, n.id@);
                }
            },
        }
        let ghost s1 = self.nodes@;
        self.nodes.push(n);
        proof {
            lemma_node_maps_push(s1, n);
            assert(self.nodes@ == s1.push(n));
            assert forall|a: int, b: int|
                #![trigger self.nodes@[a], self.nodes@[b]]
                0 <= a < b < self.nodes@.len() implies self.nodes@[a].id@
                != self.nodes@[b].id@ by {
                if b == self.nodes@.len() - 1 {
                    assert(self.nodes@[a] == s1[a]);
                } else {
                    assert(self.nodes@[a] == s1[a]);
                    assert(self.nodes@[b] == s1[b]);
                }
            }
            assert(pos_map(self.nodes@) =~= pos_map(s0).insert(n.id@, node_v(n)));
            assert(desc_map(self.nodes@) =~= desc_map(s0).insert(n.id@, n.node));
            if all_pos_sync(s0) && pos_sync(n) {
                assert forall|j: int| 0 <= j < self.nodes@.len() implies pos_sync(
                    #[trigger] self.nodes@[j],
                ) by {
                    if j < self.nodes@.len() - 1 {
                        assert(self.nodes@[j] == s1[j]);
                    }
                }
            }
        }
    }

    // -----------------------------------------------------------------------
    // The template registry.
    // -----------------------------------------------------------------------

    /// Whether any template already carries this name or this friendly id,
    /// apart from the one keyed `excl` when `excl` is given.
    fn name_conflict(&self, name: &String, fid: &String, excl: Option<&Identifier>) -> (r: bool)
        requires
            self.wf(),
        ensures
            match excl {
                None => r == name_taken(self.templates_map(), name@, fid@),
                Some(e) => r == exists|id: IdV|
                    #[trigger] self.templates_map().dom().contains(id) && id != e@ && (
                    self.templates_map()[id].name@ == name@ || self.templates_map()[
                        id
                    ].friendly_id@ == fid@),
            },
    {
        let mut i: usize = 0;
        while i < self.templates.len()
            invariant
                self.wf(),
                i <= self.templates@.len(),
                forall|j: int|
                    0 <= j < i ==> !((#[trigger] self.templates@[j]).name@ == name@
                        || self.templates@[j].friendly_id@ == fid@) || (match excl {
                        Some(e) => self.templates@[j].id@ == e@,
                        None => false,
                    }),
            decreases self.templates@.len() - i,
        {
            let t = &self.templates[i];
            if t.name == *name || t.friendly_id == *fid {
                let excluded = match excl {
                    Some(e) => t.id == *e,
                    None => false,
                };
                if !excluded {
                    proof {
                        lemma_tpl_map_get(self.templates@, i as int);
                    }
                    return true;
                }
            }
            i += 1;
        }
        proof {
            assert forall|id: IdV| #[trigger]
                self.templates_map().dom().contains(id) implies !((self.templates_map()[id].name@
                == name@ || self.templates_map()[id].friendly_id@ == fid@) && (match excl {
                Some(e) => id != e@,
                None => true,
            })) by {
                lemma_tpl_map_member(self.templates@, id);
                let j = choose|j: int|
                    0 <= j < self.templates@.len() && (#[trigger] self.templates@[j]).id@ == id;
                lemma_tpl_map_get(self.templates@, j);
            }
        }
        false
    }

    /// Inserts or replaces the template record keyed by `t`'s id. The caller
    /// has ruled out name conflicts.
    fn put_template(&mut self, t: Template)
        requires
            uniq_templates(old(self).templates@),
            forall|j: int|
                0 <= j < old(self).templates@.len() ==> (#[trigger] old(self).templates@[j]).id@
                    == t.id@ || (old(self).templates@[j].name@ != t.name@ && old(
                    self,
                ).templates@[j].friendly_id@ != t.friendly_id@),
        ensures
            uniq_templates(final(self).templates@),
            tpl_map(final(self).templates@) == tpl_map(old(self).templates@).insert(t.id@, t),
            final(self).nodes@ == old(self).nodes@,
            final(self).order == old(self).order,
    {
        let ghost s0 = self.templates@;
        match self.find_template(&t.id) {
            Some(i) => {
                proof {
                    lemma_tpl_map_remove(s0, i as int);
                }
                self.templates.remove(i);
                proof {
                    let s1 = self.templates@;
                    s0.remove_ensures(i as int);
                    assert forall|a: int, b: int|
                        #![trigger s1[a], s1[b]]
                        0 <= a < b < s1.len() implies (s1[a].id@ != s1[b].id@ && s1[a].name@
                        != s1[b].name@ && s1[a].friendly_id@ != s1[b].friendly_id@) by {}
                    assert forall|j: int| 0 <= j < s1.len() implies (#[trigger] s1[j]).id@
                        != t.id@ by {
                        let orig = if j < i as int {
                            j
                        } else {
                            j + 1
                        };
                        assert(s1[j] == s0[orig]);
                        if orig != i as int {
                            assert(s0[orig].id@ != s0[i as int].id@);
                        }
                    }
                }
            },
            None => {
                proof {
                    lemma_tpl_map_absent(s0, t.id@);
                }
            },
        }
        let ghost s1 = self.templates@;
        proof {
            lemma_tpl_map_push(s1, t);
        }
        self.templates.push(t);
        proof {
            assert(self.templates@ == s1.push(t));
            assert forall|a: int, b: int|
                #![trigger self.templates@[a], self.templates@[b]]
                0 <= a < b < self.templates@.len() implies (self.templates@[a].id@
                != self.templates@[b].id@ && self.templates@[a].name@ != self.templates@[b].name@
                && self.templates@[a].friendly_id@ != self.templates@[b].friendly_id@) by {
                assert(self.templates@[a] == s1[a]);
                if b < self.templates@.len() - 1 {
                    assert(self.templates@[b] == s1[b]);
                }
            }
            assert(tpl_map(self.templates@) =~= tpl_map(s0).insert(t.id@, t));
        }
    }

    /// Creates a template under a caller-chosen identifier. Fails when the
    /// name or its derived friendly id is already taken, or the identifier is.
    pub fn create_template_with_id(
        &mut self,
        id: Identifier,
        name: String,
        package: PackageId,
        layout: LayoutKind,
        description: Option<String>,
        icon: Option<String>,
        inherit: Option<Identifier>,
    ) -> (r: Result<Template, Error>)
        requires
            old(self).wf(),
        ensures
            final(self).wf(),
            final(self).nodes_map() == old(self).nodes_map(),
            final(self).descs() == old(self).descs(),
            match r {
                Ok(t) => {
                    &&& !name_taken(
                        old(self).templates_map(),
                        name@,
                        crate::template::friendly_id_of(name@),
                    )
                    &&& !old(self).templates_map().dom().contains(id@)
                    &&& t.id == id
                    &&& t.name == name
                    &&& t.friendly_id@ == crate::template::friendly_id_of(name@)
                    &&& t.package == package
                    &&& t.layout == layout
                    &&& t.inherit == inherit
                    &&& t.icon == icon
                    &&& t.description == description
                    &&& final(self).templates_map() == old(self).templates_map().insert(id@, t)
                },
                Err(e) => {
                    &&& final(self).templates_map() == old(self).templates_map()
                    &&& match e {
                        Error::DuplicateName { name: n2 } => n2 == name && name_taken(
                            old(self).templates_map(),
                            name@,
                            crate::template::friendly_id_of(name@),
                        ),
                        Error::DuplicateIdentifier { id: i2 } => i2 == id && !name_taken(
                            old(self).templates_map(),
                            name@,
                            crate::template::friendly_id_of(name@),
                        ) && old(self).templates_map().dom().contains(id@),
                        _ => false,
                    }
                },
            },
            (name_taken(old(self).templates_map(), name@, crate::template::friendly_id_of(name@))
                || old(self).templates_map().dom().contains(id@)) <==> r is Err,
    {
        let fid = crate::template::derive_friendly_id(&name);
        if self.name_conflict(&name, &fid, None) {
            return Err(Error::DuplicateName { name });
        }
        match self.find_template(&id) {
            Some(i) => {
                proof {
                    lemma_tpl_map_get(self.templates@, i as int);
                }
                return Err(Error::DuplicateIdentifier { id });
            },
            None => {
                proof {
                    lemma_tpl_map_absent(self.templates@, id@);
                }
            },
        }
        let t = Template {
            id,
            friendly_id: fid,
            name,
            package,
            inherit,
            icon,
            description,
            layout,
        };
        let out = t.clone();
        proof {
            assert forall|j: int| 0 <= j < self.templates@.len() implies (
            #[trigger] self.templates@[j]).id@ == t.id@ || (self.templates@[j].name@ != t.name@
                && self.templates@[j].friendly_id@ != t.friendly_id@) by {
                lemma_tpl_map_get(self.templates@, j);
            }
        }
        self.put_template(t);
        Ok(out)
    }

    /// Creates a template under a fresh identifier, deriving its friendly id
    /// from the name.
    pub fn create_template(
        &mut self,
        name: String,
        package: PackageId,
        layout: LayoutKind,
        description: Option<String>,
        icon: Option<String>,
        inherit: Option<Identifier>,
    ) -> (r: Result<Template, Error>)
        requires
            old(self).wf(),
        ensures
            final(self).wf(),
            final(self).nodes_map() == old(self).nodes_map(),
            final(self).descs() == old(self).descs(),
            match r {
                Ok(t) => {
                    &&& !name_taken(
                        old(self).templates_map(),
                        name@,
                        crate::template::friendly_id_of(name@),
                    )
                    &&& !old(self).templates_map().dom().contains(t.id@)
                    &&& crate::ident::uuid_accepts(t.id@)
                    &&& t.name == name
                    &&& t.friendly_id@ == crate::template::friendly_id_of(name@)
                    &&& t.package == package
                    &&& t.layout == layout
                    &&& t.inherit == inherit
                    &&& t.icon == icon
                    &&& t.description == description
                    &&& final(self).templates_map() == old(self).templates_map().insert(t.id@, t)
                },
                Err(e) => {
                    &&& final(self).templates_map() == old(self).templates_map()
                    &&& match e {
                        Error::DuplicateName { name: n2 } => n2 == name && name_taken(
                            old(self).templates_map(),
                            name@,
                            crate::template::friendly_id_of(name@),
                        ),
                        Error::DuplicateIdentifier { id: i2 } => !name_taken(
                            old(self).templates_map(),
                            name@,
                            crate::template::friendly_id_of(name@),
                        ) && old(self).templates_map().dom().contains(i2@),
                        _ => false,
                    }
                },
            },
            name_taken(old(self).templates_map(), name@, crate::template::friendly_id_of(name@))
                ==> r is Err,
    {
        let id = Identifier::new();
        self.create_template_with_id(id, name, package, layout, description, icon, inherit)
    }

    /// Looks a template up by its identifier.
    pub fn get_template_by_id(&self, id: &Identifier) -> (r: Option<Template>)
        requires
            self.wf(),
        ensures
            match r {
                Some(t) => self.templates_map().dom().contains(id@) && t == self.templates_map()[
                    id@
                ],
                None => !self.templates_map().dom().contains(id@),
            },
    {
        match self.find_template(id) {
            Some(i) => {
                proof {
                    lemma_tpl_map_get(self.templates@, i as int);
                }
                Some(self.templates[i].clone())
            },
            None => {
                proof {
                    lemma_tpl_map_absent(self.templates@, id@);
                }
                None
            },
        }
    }

    /// Looks a template up by its unique friendly id.
    pub fn get_template_by_friendly_id(&self, fid: &String) -> (r: Option<Template>)
        requires
            self.wf(),
        ensures
            match r {
                Some(t) => self.templates_map().dom().contains(t.id@) && t == self.templates_map()[
                    t.id@
                ] && t.friendly_id@ == fid@,
                None => forall|id: IdV| #[trigger]
                    self.templates_map().dom().contains(id) ==> self.templates_map()[
                        id
                    ].friendly_id@ != fid@,
            },
    {
        let mut i: usize = 0;
        while i < self.templates.len()
            invariant
                self.wf(),
                i <= self.templates@.len(),
                forall|j: int|
                    0 <= j < i ==> (#[trigger] self.templates@[j]).friendly_id@ != fid@,
            decreases self.templates@.len() - i,
        {
            if self.templates[i].friendly_id == *fid {
                proof {
                    lemma_tpl_map_get(self.templates@, i as int);
                }
                return Some(self.templates[i].clone());
            }
            i += 1;
        }
        proof {
            assert forall|id: IdV| #[trigger]
                self.templates_map().dom().contains(id) implies self.templates_map()[
                id
            ].friendly_id@ != fid@ by {
                lemma_tpl_map_member(self.templates@, id);
                let j = choose|j: int|
                    0 <= j < self.templates@.len() && (#[trigger] self.templates@[j]).id@ == id;
                lemma_tpl_map_get(self.templates@, j);
            }
        }
        None
    }

    /// Every template in the registry.
    pub fn all_templates(&self) -> (r: Vec<Template>)
        requires
            self.wf(),
        ensures
            forall|i: int|
                0 <= i < r@.len() ==> self.templates_map().dom().contains(
                    (#[trigger] r@[i]).id@,
                ) && r@[i] == self.templates_map()[r@[i].id@],
            forall|id: IdV| #[trigger]
                self.templates_map().dom().contains(id) ==> exists|i: int|
                    0 <= i < r@.len() && (#[trigger] r@[i]).id@ == id,
    {
        let mut out: Vec<Template> = Vec::new();
        let mut i: usize = 0;
        while i < self.templates.len()
            invariant
                self.wf(),
                i <= self.templates@.len(),
                out@.len() == i,
                forall|j: int| 0 <= j < i ==> #[trigger] out@[j] == self.templates@[j],
            decreases self.templates@.len() - i,
        {
            out.push(self.templates[i].clone());
            i += 1;
        }
        proof {
            assert forall|i: int| 0 <= i < out@.len() implies self.templates_map().dom().contains(
                (#[trigger] out@[i]).id@,
            ) && out@[i] == self.templates_map()[out@[i].id@] by {
                lemma_tpl_map_get(self.templates@, i);
            }
            assert forall|id: IdV| #[trigger]
                self.templates_map().dom().contains(id) implies exists|i: int|
                0 <= i < out@.len() && (#[trigger] out@[i]).id@ == id by {
                lemma_tpl_map_member(self.templates@, id);
                let j = choose|j: int|
                    0 <= j < self.templates@.len() && (#[trigger] self.templates@[j]).id@ == id;
                assert(out@[j].id@ == id);
            }
        }
        out
    }

    /// Every template owned by the given package.
    pub fn all_in_package(&self, package: &PackageId) -> (r: Vec<Template>)
        requires
            self.wf(),
        ensures
            forall|i: int|
                0 <= i < r@.len() ==> self.templates_map().dom().contains(
                    (#[trigger] r@[i]).id@,
                ) && r@[i] == self.templates_map()[r@[i].id@] && r@[i].package@ == package@,
            forall|id: IdV| #[trigger]
                self.templates_map().dom().contains(id) && self.templates_map()[id].package@
                    == package@ ==> exists|i: int| 0 <= i < r@.len() && (#[trigger] r@[i]).id@ == id,
    {
        let mut out: Vec<Template> = Vec::new();
        let mut i: usize = 0;
        while i < self.templates.len()
            invariant
                self.wf(),
                i <= self.templates@.len(),
                forall|j: int|
                    0 <= j < out@.len() ==> exists|k: int|
                        0 <= k < i && #[trigger] out@[j] == self.templates@[k],
                forall|k: int|
                    0 <= k < i && (#[trigger] self.templates@[k]).package@ == package@
                        ==> exists|j: int| 0 <= j < out@.len() && #[trigger] out@[j].id@
                        == self.templates@[k].id@,
                forall|j: int| 0 <= j < out@.len() ==> (#[trigger] out@[j]).package@ == package@,
            decreases self.templates@.len() - i,
        {
            let t = &self.templates[i];
            if t.package.same_package(package) {
                let ghost before = out@;
                out.push(t.clone());
                proof {
                    assert(out@[before.len() as int] == self.templates@[i as int]);
                    assert forall|j: int| 0 <= j < out@.len() implies exists|k: int|
                        0 <= k < i + 1 && #[trigger] out@[j] == self.templates@[k] by {
                        if j < before.len() {
                            assert(out@[j] == before[j]);
                        } else {
                            assert(out@[j] == self.templates@[i as int]);
                        }
                    }
                    assert forall|k: int|
                        0 <= k < i + 1 && (#[trigger] self.templates@[k]).package@
                            == package@ implies exists|j: int| 0 <= j < out@.len()
                        && #[trigger] out@[j].id@ == self.templates@[k].id@ by {
                        if k == i as int {
                            assert(out@[before.len() as int].id@ == self.templates@[k].id@);
                        } else {
                            let j = choose|j: int|
                                0 <= j < before.len() && #[trigger] before[j].id@
                                    == self.templates@[k].id@;
                            assert(out@[j] == before[j]);
                            assert(out@[j].id@ == self.templates@[k].id@);
                        }
                    }
                }
            }
            i += 1;
        }
        proof {
            assert forall|i: int| 0 <= i < out@.len() implies self.templates_map().dom().contains(
                (#[trigger] out@[i]).id@,
            ) && out@[i] == self.templates_map()[out@[i].id@] && out@[i].package@ == package@ by {
                let k = choose|k: int|
                    0 <= k < self.templates@.len() && #[trigger] out@[i] == self.templates@[k];
                lemma_tpl_map_get(self.templates@, k);
            }
            assert forall|id: IdV| #[trigger]
                self.templates_map().dom().contains(id) && self.templates_map()[id].package@
                == package@ implies exists|i: int| 0 <= i < out@.len() && (#[trigger] out@[i]).id@
                == id by {
                lemma_tpl_map_member(self.templates@, id);
                let j = choose|j: int|
                    0 <= j < self.templates@.len() && (#[trigger] self.templates@[j]).id@ == id;
                lemma_tpl_map_get(self.templates@, j);
            }
        }
        out
    }

    /// Saves a modified template record, inserting it if its id is new. Fails
    /// when another template already carries the same name or friendly id.
    pub fn save_template(&mut self, t: &Template) -> (r: Result<(), Error>)
        requires
            old(self).wf(),
        ensures
            final(self).wf(),
            final(self).nodes_map() == old(self).nodes_map(),
            final(self).descs() == old(self).descs(),
            match r {
                Ok(_) => {
                    &&& final(self).templates_map() == old(self).templates_map().insert(t.id@, *t)
                    &&& !(exists|id: IdV| #[trigger]
                        old(self).templates_map().dom().contains(id) && id != t.id@ && (old(
                            self,
                        ).templates_map()[id].name@ == t.name@ || old(self).templates_map()[
                            id
                        ].friendly_id@ == t.friendly_id@))
                },
                Err(e) => {
                    &&& final(self).templates_map() == old(self).templates_map()
                    &&& e matches Error::DuplicateName { name } && name == t.name
                    &&& exists|id: IdV| #[trigger]
                        old(self).templates_map().dom().contains(id) && id != t.id@ && (old(
                            self,
                        ).templates_map()[id].name@ == t.name@ || old(self).templates_map()[
                            id
                        ].friendly_id@ == t.friendly_id@)
                },
            },
    {
        if self.name_conflict(&t.name, &t.friendly_id, Some(&t.id)) {
            return Err(Error::DuplicateName { name: t.name.clone() });
        }
        proof {
            assert forall|j: int| 0 <= j < self.templates@.len() implies (
            #[trigger] self.templates@[j]).id@ == t.id@ || (self.templates@[j].name@ != t.name@
                && self.templates@[j].friendly_id@ != t.friendly_id@) by {
                lemma_tpl_map_get(self.templates@, j);
            }
        }
        self.put_template(t.clone());
        Ok(())
    }

    /// Deletes a template by id, returning the removed record.
    pub fn delete_template(&mut self, id: &Identifier) -> (r: Result<Template, Error>)
        requires
            old(self).wf(),
        ensures
            final(self).wf(),
            final(self).nodes_map() == old(self).nodes_map(),
            final(self).descs() == old(self).descs(),
            match r {
                Ok(t) => {
                    &&& old(self).templates_map().dom().contains(id@)
                    &&& t == old(self).templates_map()[id@]
                    &&& final(self).templates_map() == old(self).templates_map().remove(id@)
                },
                Err(e) => {
                    &&& final(self).templates_map() == old(self).templates_map()
                    &&& !old(self).templates_map().dom().contains(id@)
                    &&& e matches Error::NotFound { entity, id: eid } && entity@ == "template"@
                        && eid@ == id@
                },
            },
    {
        match self.find_template(id) {
            Some(i) => {
                proof {
                    lemma_tpl_map_get(self.templates@, i as int);
                    lemma_tpl_map_remove(self.templates@, i as int);
                    let s0 = self.templates@;
                    s0.remove_ensures(i as int);
                }
                let ghost s0 = self.templates@;
                let removed = self.templates.remove(i);
                proof {
                    let s1 = self.templates@;
                    assert forall|a: int, b: int|
                        #![trigger s1[a], s1[b]]
                        0 <= a < b < s1.len() implies (s1[a].id@ != s1[b].id@ && s1[a].name@
                        != s1[b].name@ && s1[a].friendly_id@ != s1[b].friendly_id@) by {
                        s0.remove_ensures(i as int);
                    }
                }
                Ok(removed)
            },
            None => {
                proof {
                    lemma_tpl_map_absent(self.templates@, id@);
                }
                Err(
                    Error::NotFound {
                        entity: <String as vstd::string::StringExecFns>::from_str("template"),
                        id: id.clone(),
                    },
                )
            },
        }
    }

    // -----------------------------------------------------------------------
    // Node lookups.
    // -----------------------------------------------------------------------

    /// Looks a node record up by its identifier.
    pub fn get_node(&self, id: &Identifier) -> (r: Option<&Node>)
        requires
            self.wf(),
        ensures
            match r {
                Some(n) => {
                    &&& self.nodes_map().dom().contains(id@)
                    &&& n.id@ == id@
                    &&& node_v(*n) == self.nodes_map()[id@]
                    &&& n.node == self.descs()[id@]
                },
                None => !self.nodes_map().dom().contains(id@),
            },
    {
        match self.find_node(id) {
            Some(i) => {
                proof {
                    lemma_node_maps_get(self.nodes@, i as int);
                }
                Some(&self.nodes[i])
            },
            None => {
                proof {
                    lemma_node_maps_absent(self.nodes@, id@);
                }
                None
            },
        }
    }

    /// Every node record of the given template, in no particular order;
    /// sibling order is reconstructed by following `previous`/`next`.
    pub fn in_template(&self, template: &Identifier) -> (r: Vec<&Node>)
        requires
            self.wf(),
        ensures
            forall|i: int|
                0 <= i < r@.len() ==> {
                    let n = #[trigger] r@[i];
                    &&& self.nodes_map().dom().contains(n.id@)
                    &&& node_v(*n) == self.nodes_map()[n.id@]
                    &&& n.node == self.descs()[n.id@]
                    &&& n.template@ == template@
                },
            forall|id: IdV| #[trigger]
                self.nodes_map().dom().contains(id) && self.nodes_map()[id].template == template@
                    ==> exists|i: int| 0 <= i < r@.len() && (#[trigger] r@[i]).id@ == id,
    {
        let mut out: Vec<&Node> = Vec::new();
        let mut i: usize = 0;
        while i < self.nodes.len()
            invariant
                self.wf(),
                i <= self.nodes@.len(),
                forall|j: int|
                    0 <= j < out@.len() ==> exists|k: int|
                        0 <= k < i && #[trigger] out@[j] == &self.nodes@[k],
                forall|k: int|
                    0 <= k < i && (#[trigger] self.nodes@[k]).template@ == template@ ==> exists|
                        j: int,
                    | 0 <= j < out@.len() && (#[trigger] out@[j]).id@ == self.nodes@[k].id@,
                forall|j: int| 0 <= j < out@.len() ==> (#[trigger] out@[j]).template@ == template@,
            decreases self.nodes@.len() - i,
        {
            let n = &self.nodes[i];
            if n.template == *template {
                let ghost before = out@;
                out.push(n);
                proof {
                    assert(out@[before.len() as int] == &self.nodes@[i as int]);
                    assert forall|j: int| 0 <= j < out@.len() implies exists|k: int|
                        0 <= k < i + 1 && #[trigger] out@[j] == &self.nodes@[k] by {
                        if j < before.len() {
                            assert(out@[j] == before[j]);
                        }
                    }
                    assert forall|k: int|
                        0 <= k < i + 1 && (#[trigger] self.nodes@[k]).template@
                            == template@ implies exists|j: int|
                        0 <= j < out@.len() && (#[trigger] out@[j]).id@
                            == self.nodes@[k].id@ by {
                        if k == i as int {
                            assert(out@[before.len() as int].id@ == self.nodes@[k].id@);
                        } else {
                            let j = choose|j: int|
                                0 <= j < before.len() && (#[trigger] before[j]).id@
                                    == self.nodes@[k].id@;
                            assert(out@[j] == before[j]);
                        }
                    }
                }
            }
            i += 1;
        }
        proof {
            assert forall|i: int| 0 <= i < out@.len() implies {
                let n = #[trigger] out@[i];
                &&& self.nodes_map().dom().contains(n.id@)
                &&& node_v(*n) == self.nodes_map()[n.id@]
                &&& n.node == self.descs()[n.id@]
                &&& n.template@ == template@
            } by {
                let k = choose|k: int|
                    0 <= k < self.nodes@.len() && #[trigger] out@[i] == &self.nodes@[k];
                lemma_node_maps_get(self.nodes@, k);
            }
            assert forall|id: IdV| #[trigger]
                self.nodes_map().dom().contains(id) && self.nodes_map()[id].template
                == template@ implies exists|i: int| 0 <= i < out@.len() && (#[trigger] out@[i]).id@
                == id by {
                lemma_node_maps_member(self.nodes@, id);
                let k = choose|k: int|
                    0 <= k < self.nodes@.len() && (#[trigger] self.nodes@[k]).id@ == id;
                lemma_node_maps_get(self.nodes@, k);
            }
        }
        out
    }

    /// The members of one collection slot, in no particular order.
    pub fn get_children(&self, template: &Identifier, parent: &Parent) -> (r: Vec<&Node>)
        requires
            self.wf(),
        ensures
            forall|i: int|
                0 <= i < r@.len() ==> {
                    let n = #[trigger] r@[i];
                    &&& self.nodes_map().dom().contains(n.id@)
                    &&& node_v(*n) == self.nodes_map()[n.id@]
                    &&& n.node == self.descs()[n.id@]
                    &&& key_of(self.nodes_map()[n.id@]) == (CKey {
                        template: template@,
                        parent: parent@,
                    })
                },
            forall|id: IdV| #[trigger]
                self.nodes_map().dom().contains(id) && key_of(self.nodes_map()[id]) == (CKey {
                    template: template@,
                    parent: parent@,
                }) ==> exists|i: int| 0 <= i < r@.len() && (#[trigger] r@[i]).id@ == id,
    {
        let mut out: Vec<&Node> = Vec::new();
        let mut i: usize = 0;
        while i < self.nodes.len()
            invariant
                self.wf(),
                i <= self.nodes@.len(),
                forall|j: int|
                    0 <= j < out@.len() ==> exists|k: int|
                        0 <= k < i && #[trigger] out@[j] == &self.nodes@[k],
                forall|k: int|
                    0 <= k < i && (#[trigger] self.nodes@[k]).template@ == template@
                        && self.nodes@[k].parent@ == parent@ ==> exists|j: int|
                        0 <= j < out@.len() && (#[trigger] out@[j]).id@ == self.nodes@[k].id@,
                forall|j: int|
                    0 <= j < out@.len() ==> (#[trigger] out@[j]).template@ == template@ && out@[
                        j
                    ].parent@ == parent@,
            decreases self.nodes@.len() - i,
        {
            let n = &self.nodes[i];
            if n.template == *template && n.parent.same_slot(parent) {
                let ghost before = out@;
                out.push(n);
                proof {
                    assert(out@[before.len() as int] == &self.nodes@[i as int]);
                    assert forall|j: int| 0 <= j < out@.len() implies exists|k: int|
                        0 <= k < i + 1 && #[trigger] out@[j] == &self.nodes@[k] by {
                        if j < before.len() {
                            assert(out@[j] == before[j]);
                        }
                    }
                    assert forall|k: int|
                        0 <= k < i + 1 && (#[trigger] self.nodes@[k]).template@ == template@
                            && self.nodes@[k].parent@ == parent@ implies exists|j: int|
                        0 <= j < out@.len() && (#[trigger] out@[j]).id@
                            == self.nodes@[k].id@ by {
                        if k == i as int {
                            assert(out@[before.len() as int].id@ == self.nodes@[k].id@);
                        } else {
                            let j = choose|j: int|
                                0 <= j < before.len() && (#[trigger] before[j]).id@
                                    == self.nodes@[k].id@;
                            assert(out@[j] == before[j]);
                        }
                    }
                }
            }
            i += 1;
        }
        proof {
            assert forall|i: int| 0 <= i < out@.len() implies {
                let n = #[trigger] out@[i];
                &&& self.nodes_map().dom().contains(n.id@)
                &&& node_v(*n) == self.nodes_map()[n.id@]
                &&& n.node == self.descs()[n.id@]
                &&& key_of(self.nodes_map()[n.id@]) == (CKey {
                    template: template@,
                    parent: parent@,
                })
            } by {
                let k = choose|k: int|
                    0 <= k < self.nodes@.len() && #[trigger] out@[i] == &self.nodes@[k];
                lemma_node_maps_get(self.nodes@, k);
            }
            assert forall|id: IdV| #[trigger]
                self.nodes_map().dom().contains(id) && key_of(self.nodes_map()[id]) == (CKey {
                template: template@,
                parent: parent@,
            }) implies exists|i: int| 0 <= i < out@.len() && (#[trigger] out@[i]).id@ == id by {
                lemma_node_maps_member(self.nodes@, id);
                let k = choose|k: int|
                    0 <= k < self.nodes@.len() && (#[trigger] self.nodes@[k]).id@ == id;
                lemma_node_maps_get(self.nodes@, k);
            }
        }
        out
    }

    /// The members of one named collection of a container node, in no
    /// particular order.
    pub fn in_container(&self, template: &Identifier, parent: &Identifier, collection: &String) -> (r:
        Vec<&Node>)
        requires
            self.wf(),
        ensures
            forall|i: int|
                0 <= i < r@.len() ==> {
                    let n = #[trigger] r@[i];
                    &&& self.nodes_map().dom().contains(n.id@)
                    &&& node_v(*n) == self.nodes_map()[n.id@]
                    &&& key_of(self.nodes_map()[n.id@]) == (CKey {
                        template: template@,
                        parent: ParentV::Child { parent: parent@, collection: collection@ },
                    })
                },
            forall|id: IdV| #[trigger]
                self.nodes_map().dom().contains(id) && key_of(self.nodes_map()[id]) == (CKey {
                    template: template@,
                    parent: ParentV::Child { parent: parent@, collection: collection@ },
                }) ==> exists|i: int| 0 <= i < r@.len() && (#[trigger] r@[i]).id@ == id,
    {
        let p = Parent::Child { parent: parent.clone(), collection: collection.clone() };
        self.get_children(template, &p)
    }

    /// The nodes sitting directly under the template's root area.
    pub fn in_root(&self, template: &Identifier) -> (r: Vec<&Node>)
        requires
            self.wf(),
        ensures
            forall|i: int|
                0 <= i < r@.len() ==> {
                    let n = #[trigger] r@[i];
                    &&& self.nodes_map().dom().contains(n.id@)
                    &&& node_v(*n) == self.nodes_map()[n.id@]
                    &&& key_of(self.nodes_map()[n.id@]) == (CKey {
                        template: template@,
                        parent: ParentV::Root,
                    })
                },
            forall|id: IdV| #[trigger]
                self.nodes_map().dom().contains(id) && key_of(self.nodes_map()[id]) == (CKey {
                    template: template@,
                    parent: ParentV::Root,
                }) ==> exists|i: int| 0 <= i < r@.len() && (#[trigger] r@[i]).id@ == id,
    {
        let p = Parent::Root;
        self.get_children(template, &p)
    }

    /// Whether the collection slot already has any member.
    fn slot_occupied(&self, template: &Identifier, parent: &Parent) -> (r: bool)
        requires
            self.wf(),
        ensures
            r == !collection_empty(
                self.nodes_map(),
                CKey { template: template@, parent: parent@ },
            ),
    {
        let ghost k = CKey { template: template@, parent: parent@ };
        let mut i: usize = 0;
        while i < self.nodes.len()
            invariant
                self.wf(),
                i <= self.nodes@.len(),
                forall|j: int|
                    0 <= j < i ==> !((#[trigger] self.nodes@[j]).template@ == template@
                        && self.nodes@[j].parent@ == parent@),
            decreases self.nodes@.len() - i,
        {
            let n = &self.nodes[i];
            if n.template == *template && n.parent.same_slot(parent) {
                proof {
                    lemma_node_maps_get(self.nodes@, i as int);
                }
                return true;
            }
            i += 1;
        }
        proof {
            assert forall|id: IdV| #[trigger] self.nodes_map().dom().contains(id) implies key_of(
                self.nodes_map()[id],
            ) != k by {
                lemma_node_maps_member(self.nodes@, id);
                let j = choose|j: int|
                    0 <= j < self.nodes@.len() && (#[trigger] self.nodes@[j]).id@ == id;
                lemma_node_maps_get(self.nodes@, j);
            }
        }
        false
    }

    /// Removes the node record at a known index.
    fn drop_node_at(&mut self, i: usize)
        requires
            uniq_nodes(old(self).nodes@),
            i < old(self).nodes@.len(),
        ensures
            uniq_nodes(final(self).nodes@),
            all_pos_sync(old(self).nodes@) ==> all_pos_sync(final(self).nodes@),
            pos_map(final(self).nodes@) == pos_map(old(self).nodes@).remove(
                old(self).nodes@[i as int].id@,
            ),
            desc_map(final(self).nodes@) == desc_map(old(self).nodes@).remove(
                old(self).nodes@[i as int].id@,
            ),
            final(self).templates@ == old(self).templates@,
            final(self).order == old(self).order,
    {
        let ghost s0 = self.nodes@;
        proof {
            lemma_node_maps_remove(s0, i as int);
        }
        self.nodes.remove(i);
        proof {
            let s1 = self.nodes@;
            s0.remove_ensures(i as int);
            assert forall|a: int, b: int|
                #![trigger s1[a], s1[b]]
                0 <= a < b < s1.len() implies s1[a].id@ != s1[b].id@ by {}
            if all_pos_sync(s0) {
                assert forall|j: int| 0 <= j < s1.len() implies pos_sync(#[trigger] s1[j]) by {
                    let orig = if j < i as int {
                        j
                    } else {
                        j + 1
                    };
                    assert(s1[j] == s0[orig]);
                }
            }
        }
    }

    /// The index of a record known to exist.
    fn locate_node(&self, id: &Identifier) -> (i: usize)
        requires
            exists|j: int| 0 <= j < self.nodes@.len() && (#[trigger] self.nodes@[j]).id@ == id@,
        ensures
            i < self.nodes@.len(),
            self.nodes@[i as int].id@ == id@,
    {
        let mut i: usize = 0;
        while i < self.nodes.len()
            invariant
                i <= self.nodes@.len(),
                exists|j: int| 0 <= j < self.nodes@.len() && (#[trigger] self.nodes@[j]).id@ == id@,
                forall|j: int| 0 <= j < i ==> (#[trigger] self.nodes@[j]).id@ != id@,
            decreases self.nodes@.len() - i,
        {
            if self.nodes[i].id == *id {
                return i;
            }
            i += 1;
        }
        proof {
            assert(false);
        }
        0
    }

    /// Rewrites one optional sibling link of an optionally-present record:
    /// the record named by `target`, when it exists, gets `new_link` as its
    /// `previous` (or, with `set_prev` false, as its `next`); everything else
    /// about it stays. A missing or unresolvable target is left alone.
    fn patch_link(
        &mut self,
        target: &Option<Identifier>,
        new_link: &Option<Identifier>,
        set_prev: bool,
    )
        requires
            uniq_nodes(old(self).nodes@),
        ensures
            uniq_nodes(final(self).nodes@),
            all_pos_sync(old(self).nodes@) ==> all_pos_sync(final(self).nodes@),
            final(self).templates@ == old(self).templates@,
            final(self).order == old(self).order,
            ({
                let m = pos_map(old(self).nodes@);
                pos_map(final(self).nodes@) == (match target.deep_view() {
                    Some(t) => if m.dom().contains(t) {
                        m.insert(
                            t,
                            if set_prev {
                                with_prev(m[t], new_link.deep_view())
                            } else {
                                with_next(m[t], new_link.deep_view())
                            },
                        )
                    } else {
                        m
                    },
                    None => m,
                })
            }),
            desc_map(final(self).nodes@).dom() =~= desc_map(old(self).nodes@).dom(),
            forall|o: IdV| #[trigger]
                desc_map(old(self).nodes@).dom().contains(o) ==> payload_same(
                    desc_map(old(self).nodes@)[o],
                    desc_map(final(self).nodes@)[o],
                ),
    {
        let tid = match target {
            Some(tid) => tid,
            None => {
                proof {
                    assert forall|o: IdV| #[trigger]
                        desc_map(self.nodes@).dom().contains(o) implies payload_same(
                        desc_map(self.nodes@)[o],
                        desc_map(self.nodes@)[o],
                    ) by {
                        lemma_payload_same_refl(desc_map(self.nodes@)[o]);
                    }
                }
                return ;
            },
        };
        match self.find_node(tid) {
            Some(ti) => {
                proof {
                    lemma_node_maps_get(self.nodes@, ti as int);
                }
                let ghost d0 = desc_map(self.nodes@);
                let par = self.nodes[ti].parent.clone();
                let link = clone_opt(new_link);
                let keep = if set_prev {
                    clone_opt(&self.nodes[ti].next)
                } else {
                    clone_opt(&self.nodes[ti].previous)
                };
                if set_prev {
                    self.reposition_at(ti, par, link, keep);
                } else {
                    self.reposition_at(ti, par, keep, link);
                }
                proof {
                    assert forall|o: IdV| #[trigger] d0.dom().contains(o) implies payload_same(
                        d0[o],
                        desc_map(self.nodes@)[o],
                    ) by {
                        if o == tid@ {
                        } else {
                            assert(desc_map(self.nodes@)[o] == d0[o]);
                            lemma_payload_same_refl(d0[o]);
                        }
                    }
                }
            },
            None => {
                proof {
                    lemma_node_maps_absent(self.nodes@, tid@);
                    assert forall|o: IdV| #[trigger]
                        desc_map(self.nodes@).dom().contains(o) implies payload_same(
                        desc_map(self.nodes@)[o],
                        desc_map(self.nodes@)[o],
                    ) by {
                        lemma_payload_same_refl(desc_map(self.nodes@)[o]);
                    }
                }
            },
        }
    }

    /// Re-links the two neighbours of the record at index `x` to each other,
    /// detaching it from its chain; the record itself is untouched.
    fn stitch_out(&mut self, x: usize)
        requires
            old(self).wf(),
            x < old(self).nodes@.len(),
        ensures
            uniq_nodes(final(self).nodes@),
            all_pos_sync(final(self).nodes@),
            final(self).templates@ == old(self).templates@,
            ({
                let m0 = pos_map(old(self).nodes@);
                let xid = old(self).nodes@[x as int].id@;
                let m1 = pos_map(final(self).nodes@);
                &&& m1 == stitch_neighbors_m(m0, xid)
                &&& chains_ready(m1, final(self).order@, xid)
                &&& desc_map(final(self).nodes@).dom() =~= desc_map(old(self).nodes@).dom()
                &&& forall|o: IdV| #[trigger]
                    desc_map(old(self).nodes@).dom().contains(o) ==> payload_same(
                        desc_map(old(self).nodes@)[o],
                        desc_map(final(self).nodes@)[o],
                    )
            }),
    {
        let ghost s0 = self.nodes@;
        let ghost m0 = pos_map(s0);
        let ghost d0 = desc_map(s0);
        let ghost ord0 = self.order@;
        let xid = self.nodes[x].id.clone();
        let xprev = clone_opt(&self.nodes[x].previous);
        let xnext = clone_opt(&self.nodes[x].next);
        proof {
            lemma_node_maps_get(s0, x as int);
        }
        self.patch_link(&xnext, &xprev, true);
        let ghost d1 = desc_map(self.nodes@);
        self.patch_link(&xprev, &xnext, false);
        proof {
            let xv = m0[xid@];
            assert(xv.previous == xprev.deep_view());
            assert(xv.next == xnext.deep_view());
            assert(pos_map(self.nodes@) == stitch_neighbors_m(m0, xid@));
            assert forall|o: IdV| #[trigger] d0.dom().contains(o) implies payload_same(
                d0[o],
                desc_map(self.nodes@)[o],
            ) by {
                lemma_payload_same_trans(d0[o], d1[o], desc_map(self.nodes@)[o]);
            }
            let ord1 = lemma_stitch_chains(m0, ord0, xid@);
            assert(exists|o: Map<CKey, Seq<IdV>>|
                chains_ready(pos_map(self.nodes@), o, xid@));
        }
        self.order = Ghost(
            choose|o: Map<CKey, Seq<IdV>>| chains_ready(pos_map(self.nodes@), o, xid@),
        );
    }

    /// Replaces a node's payload in place. The supplied payload's position
    /// attributes are discarded: the stored record keeps its identity,
    /// placement and sibling links exactly as they were, so an edit can never
    /// perturb position. The payload must keep the node's category and kind.
    pub fn update_node(&mut self, id: &Identifier, update: NodeDesc) -> (r: Result<(), Error>)
        requires
            old(self).wf(),
        ensures
            final(self).wf(),
            final(self).templates_map() == old(self).templates_map(),
            final(self).nodes_map() == old(self).nodes_map(),
            match r {
                Ok(_) => {
                    &&& old(self).nodes_map().dom().contains(id@)
                    &&& category_of(update) == category_of(old(self).descs()[id@])
                    &&& kind_of(update) == kind_of(old(self).descs()[id@])
                    &&& final(self).descs().dom() =~= old(self).descs().dom()
                    &&& payload_same(update, final(self).descs()[id@])
                    &&& forall|o: IdV| #[trigger]
                        old(self).descs().dom().contains(o) && o != id@ ==> final(self).descs()[o]
                            == old(self).descs()[o]
                },
                Err(e) => {
                    &&& final(self).descs() == old(self).descs()
                    &&& match e {
                        Error::NotFound { entity, id: eid } => entity@ == "node"@ && eid@ == id@
                            && !old(self).nodes_map().dom().contains(id@),
                        Error::Immutable { attribute } => old(self).nodes_map().dom().contains(id@)
                            && ((attribute@ == "node_category"@ && category_of(update)
                            != category_of(old(self).descs()[id@])) || (attribute@ == "node_kind"@
                            && category_of(update) == category_of(old(self).descs()[id@])
                            && kind_of(update) != kind_of(old(self).descs()[id@]))),
                        _ => false,
                    }
                },
            },
            r is Err <==> (!old(self).nodes_map().dom().contains(id@) || category_of(update)
                != category_of(old(self).descs()[id@]) || kind_of(update) != kind_of(
                old(self).descs()[id@],
            )),
    {
        let i = match self.find_node(id) {
            Some(i) => i,
            None => {
                proof {
                    lemma_node_maps_absent(self.nodes@, id@);
                }
                return Err(
                    Error::NotFound {
                        entity: <String as vstd::string::StringExecFns>::from_str("node"),
                        id: id.clone(),
                    },
                );
            },
        };
        proof {
            lemma_node_maps_get(self.nodes@, i as int);
        }
        let cur_cat = self.nodes[i].node.node_category();
        let new_cat = update.node_category();
        if !(new_cat == cur_cat) {
            return Err(
                Error::Immutable {
                    attribute: <String as vstd::string::StringExecFns>::from_str("node_category"),
                },
            );
        }
        let new_kind = <String as vstd::string::StringExecFns>::from_str(update.kind_text());
        let cur_kind = <String as vstd::string::StringExecFns>::from_str(
            self.nodes[i].node.kind_text(),
        );
        if !(new_kind == cur_kind) {
            return Err(
                Error::Immutable {
                    attribute: <String as vstd::string::StringExecFns>::from_str("node_kind"),
                },
            );
        }
        let ghost s0 = self.nodes@;
        proof {
            lemma_node_maps_remove(s0, i as int);
        }
        let mut n = self.nodes.remove(i);
        proof {
            let s1 = self.nodes@;
            s0.remove_ensures(i as int);
            assert forall|a: int, b: int|
                #![trigger s1[a], s1[b]]
                0 <= a < b < s1.len() implies s1[a].id@ != s1[b].id@ by {}
            assert forall|j: int| 0 <= j < s1.len() implies pos_sync(#[trigger] s1[j]) by {
                let orig = if j < i as int {
                    j
                } else {
                    j + 1
                };
                assert(s1[j] == s0[orig]);
            }
        }
        let p = NodePos {
            id: n.id.clone(),
            parent: n.parent.clone(),
            previous: clone_opt(&n.previous),
            next: clone_opt(&n.next),
        };
        let mut d = update;
        d.set_position(p);
        n.node = d;
        let ghost nfixed = n;
        self.put_node(n);
        proof {
            assert(node_v(nfixed) == node_v(s0[i as int]));
            assert(pos_map(self.nodes@) =~= pos_map(s0));
            assert(desc_map(self.nodes@) =~= desc_map(s0).insert(id@, nfixed.node));
            assert(pos_sync(nfixed));
            assert(all_pos_sync(self.nodes@));
            assert(desc_map(self.nodes@).dom() =~= desc_map(s0).dom());
        }
        Ok(())
    }

    /// Deletes a node: its neighbours are re-linked to each other, then the
    /// record is removed, atomically.
    pub fn delete_node(&mut self, id: &Identifier) -> (r: Result<(), Error>)
        requires
            old(self).wf(),
        ensures
            final(self).wf(),
            final(self).templates_map() == old(self).templates_map(),
            match r {
                Ok(_) => {
                    &&& old(self).nodes_map().dom().contains(id@)
                    &&& final(self).nodes_map() == delete_m(old(self).nodes_map(), id@)
                    &&& final(self).descs().dom() =~= old(self).descs().dom().remove(id@)
                    &&& forall|o: IdV| #[trigger]
                        final(self).descs().dom().contains(o) ==> payload_same(
                            old(self).descs()[o],
                            final(self).descs()[o],
                        )
                },
                Err(e) => {
                    &&& final(self).nodes_map() == old(self).nodes_map()
                    &&& final(self).descs() == old(self).descs()
                    &&& e matches Error::NotFound { entity, id: eid } && entity@ == "node"@ && eid@
                        == id@ && !old(self).nodes_map().dom().contains(id@)
                },
            },
            r is Err <==> !old(self).nodes_map().dom().contains(id@),
    {
        let ghost m0 = pos_map(self.nodes@);
        let ghost d0 = desc_map(self.nodes@);
        let i = match self.find_node(id) {
            Some(i) => i,
            None => {
                proof {
                    lemma_node_maps_absent(self.nodes@, id@);
                }
                return Err(
                    Error::NotFound {
                        entity: <String as vstd::string::StringExecFns>::from_str("node"),
                        id: id.clone(),
                    },
                );
            },
        };
        proof {
            lemma_node_maps_get(self.nodes@, i as int);
        }
        self.stitch_out(i);
        proof {
            lemma_node_maps_member(self.nodes@, id@);
        }
        let xi = self.locate_node(id);
        proof {
            lemma_node_maps_get(self.nodes@, xi as int);
        }
        let ghost m1 = pos_map(self.nodes@);
        let ghost ord1 = self.order@;
        self.drop_node_at(xi);
        proof {
            let m2 = pos_map(self.nodes@);
            assert(m2 == m1.remove(id@));
            assert(m2 == delete_m(m0, id@));
            // every chain survives the removal: none of them mentions the
            // deleted record
            assert(chains_ok(m2, ord1)) by {
                assert forall|k: CKey| ord1.dom().contains(k) implies chain_ok(
                    m2,
                    k,
                    #[trigger] ord1[k],
                ) by {
                    assert(chain_ok(m1, k, ord1[k]));
                    assert(!ord1[k].contains(id@));
                    assert forall|q: int| 0 <= q < ord1[k].len() implies m2[#[trigger] ord1[k][q]]
                        == m1[ord1[k][q]] && m2.dom().contains(ord1[k][q]) by {
                        assert(ord1[k][q] != id@);
                    }
                }
                assert forall|o: IdV| #[trigger] m2.dom().contains(o) implies
                    ord1.dom().contains(key_of(m2[o])) && ord1[key_of(m2[o])].contains(o) by {
                    assert(m1.dom().contains(o) && o != id@);
                }
            }
            assert(exists|o: Map<CKey, Seq<IdV>>| chains_ok(pos_map(self.nodes@), o));
        }
        self.order = Ghost(choose|o: Map<CKey, Seq<IdV>>| chains_ok(pos_map(self.nodes@), o));
        proof {
            assert(desc_map(self.nodes@).dom() =~= d0.dom().remove(id@));
        }
        Ok(())
    }

    /// Moves a node into an empty collection slot as its sole member. Fails
    /// when the target collection already has any member.
    pub fn move_into(&mut self, id: &Identifier, parent: Parent) -> (r: Result<(), Error>)
        requires
            old(self).wf(),
        ensures
            final(self).wf(),
            final(self).templates_map() == old(self).templates_map(),
            match r {
                Ok(_) => {
                    &&& old(self).nodes_map().dom().contains(id@)
                    &&& collection_empty(
                        old(self).nodes_map(),
                        CKey {
                            template: old(self).nodes_map()[id@].template,
                            parent: parent@,
                        },
                    )
                    &&& final(self).nodes_map() == move_into_m(old(self).nodes_map(), id@, parent@)
                    &&& final(self).descs().dom() =~= old(self).descs().dom()
                    &&& forall|o: IdV| #[trigger]
                        old(self).descs().dom().contains(o) ==> payload_same(
                            old(self).descs()[o],
                            final(self).descs()[o],
                        )
                },
                Err(e) => {
                    &&& final(self).nodes_map() == old(self).nodes_map()
                    &&& final(self).descs() == old(self).descs()
                    &&& match e {
                        Error::NotFound { entity, id: eid } => entity@ == "node"@ && eid@ == id@
                            && !old(self).nodes_map().dom().contains(id@),
                        Error::NonEmptyParent { parent: p2, id: tid } => {
                            &&& old(self).nodes_map().dom().contains(id@)
                            &&& p2 == parent
                            &&& tid@ == old(self).nodes_map()[id@].template
                            &&& !collection_empty(
                                old(self).nodes_map(),
                                CKey {
                                    template: old(self).nodes_map()[id@].template,
                                    parent: parent@,
                                },
                            )
                        },
                        _ => false,
                    }
                },
            },
            r is Err <==> (!old(self).nodes_map().dom().contains(id@) || !collection_empty(
                old(self).nodes_map(),
                CKey { template: old(self).nodes_map()[id@].template, parent: parent@ },
            )),
    {
        let ghost m0 = pos_map(self.nodes@);
        let i = match self.find_node(id) {
            Some(i) => i,
            None => {
                proof {
                    lemma_node_maps_absent(self.nodes@, id@);
                }
                return Err(
                    Error::NotFound {
                        entity: <String as vstd::string::StringExecFns>::from_str("node"),
                        id: id.clone(),
                    },
                );
            },
        };
        proof {
            lemma_node_maps_get(self.nodes@, i as int);
        }
        let tplx = self.nodes[i].template.clone();
        if self.slot_occupied(&tplx, &parent) {
            return Err(Error::NonEmptyParent { parent, id: tplx });
        }
        self.stitch_out(i);
        proof {
            lemma_node_maps_member(self.nodes@, id@);
        }
        let xi = self.locate_node(id);
        proof {
            lemma_node_maps_get(self.nodes@, xi as int);
        }
        let ghost m1 = pos_map(self.nodes@);
        let ghost ord1 = self.order@;
        let ghost k2 = CKey { template: m0[id@].template, parent: parent@ };
        self.reposition_at(xi, parent, None, None);
        proof {
            let m2 = pos_map(self.nodes@);
            assert(m2 == attach_into_m(m1, id@, m0[id@].template, k2.parent));
            assert(collection_empty(m1, k2)) by {
                assert forall|o: IdV| #[trigger] m1.dom().contains(o) implies key_of(m1[o])
                    != k2 by {
                    assert(m0.dom().contains(o));
                    assert(key_of(m1[o]) == key_of(m0[o]));
                }
            }
            let ord2 = lemma_close_into(m1, ord1, id@, m0[id@].template, k2.parent);
            assert(m2 == move_into_m(m0, id@, parent@));
            assert(exists|o: Map<CKey, Seq<IdV>>| chains_ok(pos_map(self.nodes@), o));
        }
        self.order = Ghost(choose|o: Map<CKey, Seq<IdV>>| chains_ok(pos_map(self.nodes@), o));
        Ok(())
    }

    /// Moves a node to sit immediately after another node of the same
    /// template, adopting that node's collection slot.
    pub fn move_after(&mut self, id: &Identifier, after: &Identifier) -> (r: Result<(), Error>)
        requires
            old(self).wf(),
        ensures
            final(self).wf(),
            final(self).templates_map() == old(self).templates_map(),
            match r {
                Ok(_) => {
                    &&& old(self).nodes_map().dom().contains(id@)
                    &&& old(self).nodes_map().dom().contains(after@)
                    &&& id@ != after@
                    &&& old(self).nodes_map()[id@].template == old(self).nodes_map()[
                        after@
                    ].template
                    &&& final(self).nodes_map() == move_after_m(old(self).nodes_map(), id@, after@)
                    &&& final(self).descs().dom() =~= old(self).descs().dom()
                    &&& forall|o: IdV| #[trigger]
                        old(self).descs().dom().contains(o) ==> payload_same(
                            old(self).descs()[o],
                            final(self).descs()[o],
                        )
                },
                Err(e) => {
                    &&& final(self).nodes_map() == old(self).nodes_map()
                    &&& final(self).descs() == old(self).descs()
                    &&& match e {
                        Error::NotFound { entity, id: eid } => entity@ == "node"@ && ((eid@ == id@
                            && !old(self).nodes_map().dom().contains(id@)) || (eid@ == after@
                            && old(self).nodes_map().dom().contains(id@) && !old(
                            self,
                        ).nodes_map().dom().contains(after@))),
                        Error::SelfReference { id: eid } => eid@ == id@ && id@ == after@ && old(
                            self,
                        ).nodes_map().dom().contains(id@),
                        Error::TemplateMismatch { expected, found } => {
                            &&& old(self).nodes_map().dom().contains(id@)
                            &&& old(self).nodes_map().dom().contains(after@)
                            &&& id@ != after@
                            &&& expected@ == old(self).nodes_map()[id@].template
                            &&& found@ == old(self).nodes_map()[after@].template
                            &&& expected@ != found@
                        },
                        _ => false,
                    }
                },
            },
            r is Err <==> (!old(self).nodes_map().dom().contains(id@) || !old(
                self,
            ).nodes_map().dom().contains(after@) || id@ == after@ || old(self).nodes_map()[
                id@
            ].template != old(self).nodes_map()[after@].template),
    {
        let ghost m0 = pos_map(self.nodes@);
        let ghost d0 = desc_map(self.nodes@);
        let xi = match self.find_node(id) {
            Some(i) => i,
            None => {
                proof {
                    lemma_node_maps_absent(self.nodes@, id@);
                }
                return Err(
                    Error::NotFound {
                        entity: <String as vstd::string::StringExecFns>::from_str("node"),
                        id: id.clone(),
                    },
                );
            },
        };
        proof {
            lemma_node_maps_get(self.nodes@, xi as int);
        }
        let ai0 = match self.find_node(after) {
            Some(i) => i,
            None => {
                proof {
                    lemma_node_maps_absent(self.nodes@, after@);
                }
                return Err(
                    Error::NotFound {
                        entity: <String as vstd::string::StringExecFns>::from_str("node"),
                        id: after.clone(),
                    },
                );
            },
        };
        proof {
            lemma_node_maps_get(self.nodes@, ai0 as int);
        }
        if *id == *after {
            return Err(Error::SelfReference { id: id.clone() });
        }
        if !(self.nodes[xi].template == self.nodes[ai0].template) {
            return Err(
                Error::TemplateMismatch {
                    expected: self.nodes[xi].template.clone(),
                    found: self.nodes[ai0].template.clone(),
                },
            );
        }
        self.stitch_out(xi);
        let ghost m1 = pos_map(self.nodes@);
        let ghost ord1 = self.order@;
        proof {
            lemma_node_maps_member(self.nodes@, after@);
        }
        let ai = self.locate_node(after);
        proof {
            lemma_node_maps_get(self.nodes@, ai as int);
            // the reference node's successor, if any, is a stored record of
            // the same collection
            let k2 = key_of(m1[after@]);
            assert(ord1[k2].contains(after@));
            let s2 = ord1[k2];
            let j = choose|j: int| 0 <= j < s2.len() && s2[j] == after@;
            assert(chain_ok(m1, k2, s2));
            if j < s2.len() - 1 {
                assert(m1[after@].next == Some(s2[j + 1]));
                assert(m1.dom().contains(s2[j + 1]));
            }
        }
        let na = clone_opt(&self.nodes[ai].next);
        let apar = self.nodes[ai].parent.clone();
        let xlink = Some(id.clone());
        let ghost d1 = desc_map(self.nodes@);
        self.patch_link(&na, &xlink, true);
        let ghost d2 = desc_map(self.nodes@);
        let atgt = Some(after.clone());
        self.patch_link(&atgt, &xlink, false);
        proof {
            lemma_node_maps_member(self.nodes@, id@);
        }
        let xi2 = self.locate_node(id);
        proof {
            lemma_node_maps_get(self.nodes@, xi2 as int);
        }
        let ghost d3 = desc_map(self.nodes@);
        self.reposition_at(xi2, apar, Some(after.clone()), na);
        proof {
            let m4 = pos_map(self.nodes@);
            let tpl = m0[id@].template;
            assert(m4 == attach_after_m(m1, id@, after@, tpl));
            assert(m4 == move_after_m(m0, id@, after@));
            let ord2 = lemma_close_after(m1, ord1, id@, after@, tpl);
            assert(exists|o: Map<CKey, Seq<IdV>>| chains_ok(pos_map(self.nodes@), o));
            assert forall|o: IdV| #[trigger] d0.dom().contains(o) implies payload_same(
                d0[o],
                desc_map(self.nodes@)[o],
            ) by {
                lemma_payload_same_trans(d0[o], d1[o], d2[o]);
                lemma_payload_same_trans(d0[o], d2[o], d3[o]);
                if o == id@ {
                } else {
                    assert(desc_map(self.nodes@)[o] == d3[o]);
                    lemma_payload_same_refl(d3[o]);
                }
                lemma_payload_same_trans(d0[o], d3[o], desc_map(self.nodes@)[o]);
            }
            assert(all_pos_sync(self.nodes@));
        }
        self.order = Ghost(choose|o: Map<CKey, Seq<IdV>>| chains_ok(pos_map(self.nodes@), o));
        Ok(())
    }

    /// Moves a node to sit immediately before another node of the same
    /// template, adopting that node's collection slot.
    pub fn move_before(&mut self, id: &Identifier, before: &Identifier) -> (r: Result<(), Error>)
        requires
            old(self).wf(),
        ensures
            final(self).wf(),
            final(self).templates_map() == old(self).templates_map(),
            match r {
                Ok(_) => {
                    &&& old(self).nodes_map().dom().contains(id@)
                    &&& old(self).nodes_map().dom().contains(before@)
                    &&& id@ != before@
                    &&& old(self).nodes_map()[id@].template == old(self).nodes_map()[
                        before@
                    ].template
                    &&& final(self).nodes_map() == move_before_m(
                        old(self).nodes_map(),
                        id@,
                        before@,
                    )
                    &&& final(self).descs().dom() =~= old(self).descs().dom()
                    &&& forall|o: IdV| #[trigger]
                        old(self).descs().dom().contains(o) ==> payload_same(
                            old(self).descs()[o],
                            final(self).descs()[o],
                        )
                },
                Err(e) => {
                    &&& final(self).nodes_map() == old(self).nodes_map()
                    &&& final(self).descs() == old(self).descs()
                    &&& match e {
                        Error::NotFound { entity, id: eid } => entity@ == "node"@ && ((eid@ == id@
                            && !old(self).nodes_map().dom().contains(id@)) || (eid@ == before@
                            && old(self).nodes_map().dom().contains(id@) && !old(
                            self,
                        ).nodes_map().dom().contains(before@))),
                        Error::SelfReference { id: eid } => eid@ == id@ && id@ == before@ && old(
                            self,
                        ).nodes_map().dom().contains(id@),
                        Error::TemplateMismatch { expected, found } => {
                            &&& old(self).nodes_map().dom().contains(id@)
                            &&& old(self).nodes_map().dom().contains(before@)
                            &&& id@ != before@
                            &&& expected@ == old(self).nodes_map()[id@].template
                            &&& found@ == old(self).nodes_map()[before@].template
                            &&& expected@ != found@
                        },
                        _ => false,
                    }
                },
            },
            r is Err <==> (!old(self).nodes_map().dom().contains(id@) || !old(
                self,
            ).nodes_map().dom().contains(before@) || id@ == before@ || old(self).nodes_map()[
                id@
            ].template != old(self).nodes_map()[before@].template),
    {
        let ghost m0 = pos_map(self.nodes@);
        let ghost d0 = desc_map(self.nodes@);
        let xi = match self.find_node(id) {
            Some(i) => i,
            None => {
                proof {
                    lemma_node_maps_absent(self.nodes@, id@);
                }
                return Err(
                    Error::NotFound {
                        entity: <String as vstd::string::StringExecFns>::from_str("node"),
                        id: id.clone(),
                    },
                );
            },
        };
        proof {
            lemma_node_maps_get(self.nodes@, xi as int);
        }
        let bi0 = match self.find_node(before) {
            Some(i) => i,
            None => {
                proof {
                    lemma_node_maps_absent(self.nodes@, before@);
                }
                return Err(
                    Error::NotFound {
                        entity: <String as vstd::string::StringExecFns>::from_str("node"),
                        id: before.clone(),
                    },
                );
            },
        };
        proof {
            lemma_node_maps_get(self.nodes@, bi0 as int);
        }
        if *id == *before {
            return Err(Error::SelfReference { id: id.clone() });
        }
        if !(self.nodes[xi].template == self.nodes[bi0].template) {
            return Err(
                Error::TemplateMismatch {
                    expected: self.nodes[xi].template.clone(),
                    found: self.nodes[bi0].template.clone(),
                },
            );
        }
        self.stitch_out(xi);
        let ghost m1 = pos_map(self.nodes@);
        let ghost ord1 = self.order@;
        proof {
            lemma_node_maps_member(self.nodes@, before@);
        }
        let bi = self.locate_node(before);
        proof {
            lemma_node_maps_get(self.nodes@, bi as int);
            // the reference node's predecessor, if any, is a stored record of
            // the same collection
            let k2 = key_of(m1[before@]);
            assert(ord1[k2].contains(before@));
            let s2 = ord1[k2];
            let j = choose|j: int| 0 <= j < s2.len() && s2[j] == before@;
            assert(chain_ok(m1, k2, s2));
            if j > 0 {
                assert(m1[before@].previous == Some(s2[j - 1]));
                assert(m1.dom().contains(s2[j - 1]));
            }
        }
        let pb = clone_opt(&self.nodes[bi].previous);
        let bpar = self.nodes[bi].parent.clone();
        let xlink = Some(id.clone());
        let ghost d1 = desc_map(self.nodes@);
        let btgt = Some(before.clone());
        self.patch_link(&btgt, &xlink, true);
        let ghost d2 = desc_map(self.nodes@);
        self.patch_link(&pb, &xlink, false);
        proof {
            lemma_node_maps_member(self.nodes@, id@);
        }
        let xi2 = self.locate_node(id);
        proof {
            lemma_node_maps_get(self.nodes@, xi2 as int);
        }
        let ghost d3 = desc_map(self.nodes@);
        self.reposition_at(xi2, bpar, pb, Some(before.clone()));
        proof {
            let m4 = pos_map(self.nodes@);
            let tpl = m0[id@].template;
            assert(m4 == attach_before_m(m1, id@, before@, tpl));
            assert(m4 == move_before_m(m0, id@, before@));
            let ord2 = lemma_close_before(m1, ord1, id@, before@, tpl);
            assert(exists|o: Map<CKey, Seq<IdV>>| chains_ok(pos_map(self.nodes@), o));
            assert forall|o: IdV| #[trigger] d0.dom().contains(o) implies payload_same(
                d0[o],
                desc_map(self.nodes@)[o],
            ) by {
                lemma_payload_same_trans(d0[o], d1[o], d2[o]);
                lemma_payload_same_trans(d0[o], d2[o], d3[o]);
                if o == id@ {
                } else {
                    assert(desc_map(self.nodes@)[o] == d3[o]);
                    lemma_payload_same_refl(d3[o]);
                }
                lemma_payload_same_trans(d0[o], d3[o], desc_map(self.nodes@)[o]);
            }
            assert(all_pos_sync(self.nodes@));
        }
        self.order = Ghost(choose|o: Map<CKey, Seq<IdV>>| chains_ok(pos_map(self.nodes@), o));
        Ok(())
    }

    /// Creates a node under a caller-chosen identifier and threads it into
    /// the sibling chain at the requested placement.
    pub fn create_node_with_id(
        &mut self,
        id: Identifier,
        template: &Identifier,
        placement: &NodePlacement,
        desc: NodeDesc,
    ) -> (r: Result<Identifier, Error>)
        requires
            old(self).wf(),
        ensures
            final(self).wf(),
            final(self).templates_map() == old(self).templates_map(),
            match r {
                Ok(x) => {
                    &&& x == id
                    &&& old(self).templates_map().dom().contains(template@)
                    &&& !old(self).nodes_map().dom().contains(id@)
                    &&& placement_ok(old(self).nodes_map(), template@, *placement)
                    &&& final(self).nodes_map() == create_m(
                        old(self).nodes_map(),
                        id@,
                        template@,
                        *placement,
                    )
                    &&& final(self).descs().dom() =~= old(self).descs().dom().insert(id@)
                    &&& payload_same(desc, final(self).descs()[id@])
                    &&& forall|o: IdV| #[trigger]
                        old(self).descs().dom().contains(o) ==> payload_same(
                            old(self).descs()[o],
                            final(self).descs()[o],
                        )
                },
                Err(e) => {
                    &&& final(self).nodes_map() == old(self).nodes_map()
                    &&& final(self).descs() == old(self).descs()
                    &&& match e {
                        Error::NotFound { entity, id: eid } => (entity@ == "template"@ && eid@
                            == template@ && !old(self).templates_map().dom().contains(template@))
                            || (entity@ == "node"@ && old(self).templates_map().dom().contains(
                            template@,
                        ) && (match *placement {
                            NodePlacement::After(a) => eid@ == a@ && !old(
                                self,
                            ).nodes_map().dom().contains(a@),
                            NodePlacement::Before(b) => eid@ == b@ && !old(
                                self,
                            ).nodes_map().dom().contains(b@),
                            NodePlacement::Into(_) => false,
                        })),
                        Error::TemplateMismatch { expected, found } => {
                            &&& old(self).templates_map().dom().contains(template@)
                            &&& match *placement {
                                NodePlacement::After(a) => old(self).nodes_map().dom().contains(a@)
                                    && expected@ == template@ && found@ == old(self).nodes_map()[
                                    a@
                                ].template && found@ != template@,
                                NodePlacement::Before(b) => old(self).nodes_map().dom().contains(
                                    b@,
                                ) && expected@ == template@ && found@ == old(self).nodes_map()[
                                    b@
                                ].template && found@ != template@,
                                NodePlacement::Into(_) => false,
                            }
                        },
                        Error::NonEmptyParent { parent: p2, id: tid } => {
                            &&& old(self).templates_map().dom().contains(template@)
                            &&& match *placement {
                                NodePlacement::Into(p) => p2@ == p@ && tid@ == template@
                                    && !collection_empty(
                                    old(self).nodes_map(),
                                    CKey { template: template@, parent: p@ },
                                ),
                                _ => false,
                            }
                        },
                        Error::DuplicateIdentifier { id: i2 } => {
                            &&& i2 == id
                            &&& old(self).templates_map().dom().contains(template@)
                            &&& placement_ok(old(self).nodes_map(), template@, *placement)
                            &&& old(self).nodes_map().dom().contains(id@)
                        },
                        _ => false,
                    }
                },
            },
            r is Err <==> (!old(self).templates_map().dom().contains(template@) || !placement_ok(
                old(self).nodes_map(),
                template@,
                *placement,
            ) || old(self).nodes_map().dom().contains(id@)),
    {
        let ghost m0 = pos_map(self.nodes@);
        let ghost d0 = desc_map(self.nodes@);
        let ghost ord0 = self.order@;
        match self.find_template(template) {
            Some(ti) => {
                proof {
                    lemma_tpl_map_get(self.templates@, ti as int);
                }
            },
            None => {
                proof {
                    lemma_tpl_map_absent(self.templates@, template@);
                }
                return Err(
                    Error::NotFound {
                        entity: <String as vstd::string::StringExecFns>::from_str("template"),
                        id: template.clone(),
                    },
                );
            },
        }
        match placement {
            NodePlacement::After(a) => {
                let ai = match self.find_node(a) {
                    Some(i) => i,
                    None => {
                        proof {
                            lemma_node_maps_absent(self.nodes@, a@);
                        }
                        return Err(
                            Error::NotFound {
                                entity: <String as vstd::string::StringExecFns>::from_str("node"),
                                id: a.clone(),
                            },
                        );
                    },
                };
                proof {
                    lemma_node_maps_get(self.nodes@, ai as int);
                }
                if !(self.nodes[ai].template == *template) {
                    return Err(
                        Error::TemplateMismatch {
                            expected: template.clone(),
                            found: self.nodes[ai].template.clone(),
                        },
                    );
                }
                match self.find_node(&id) {
                    Some(di) => {
                        proof {
                            lemma_node_maps_get(self.nodes@, di as int);
                        }
                        return Err(Error::DuplicateIdentifier { id });
                    },
                    None => {
                        proof {
                            lemma_node_maps_absent(self.nodes@, id@);
                        }
                    },
                }
                proof {
                    lemma_fresh_ready(m0, ord0, id@);
                    let k2 = key_of(m0[a@]);
                    assert(ord0[k2].contains(a@));
                    let s2 = ord0[k2];
                    let j = choose|j: int| 0 <= j < s2.len() && s2[j] == a@;
                    assert(chain_ok(m0, k2, s2));
                    if j < s2.len() - 1 {
                        assert(m0[a@].next == Some(s2[j + 1]));
                        assert(m0.dom().contains(s2[j + 1]));
                    }
                }
                let na = clone_opt(&self.nodes[ai].next);
                let apar = self.nodes[ai].parent.clone();
                let xlink = Some(id.clone());
                self.patch_link(&na, &xlink, true);
                let ghost d1 = desc_map(self.nodes@);
                let atgt = Some(a.clone());
                self.patch_link(&atgt, &xlink, false);
                let ghost d2 = desc_map(self.nodes@);
                let out = id.clone();
                let p = NodePos {
                    id: id.clone(),
                    parent: apar.clone(),
                    previous: Some(a.clone()),
                    next: clone_opt(&na),
                };
                let mut d = desc;
                d.set_position(p);
                let n = Node {
                    id,
                    template: template.clone(),
                    parent: apar,
                    previous: Some(a.clone()),
                    next: na,
                    node: d,
                };
                proof {
                    assert(pos_sync(n));
                }
                self.put_node(n);
                proof {
                    let m4 = pos_map(self.nodes@);
                    assert(m4 == attach_after_m(m0, out@, a@, template@));
                    let ord2 = lemma_close_after(m0, ord0, out@, a@, template@);
                    assert(exists|o: Map<CKey, Seq<IdV>>| chains_ok(pos_map(self.nodes@), o));
                    assert forall|o: IdV| #[trigger] d0.dom().contains(o) implies payload_same(
                        d0[o],
                        desc_map(self.nodes@)[o],
                    ) by {
                        lemma_payload_same_trans(d0[o], d1[o], d2[o]);
                        if o == out@ {
                        } else {
                            assert(desc_map(self.nodes@)[o] == d2[o]);
                        }
                        lemma_payload_same_trans(d0[o], d2[o], desc_map(self.nodes@)[o]);
                    }
                    assert(all_pos_sync(self.nodes@));
                }
                self.order = Ghost(
                    choose|o: Map<CKey, Seq<IdV>>| chains_ok(pos_map(self.nodes@), o),
                );
                Ok(out)
            },
            NodePlacement::Before(b) => {
                let bi = match self.find_node(b) {
                    Some(i) => i,
                    None => {
                        proof {
                            lemma_node_maps_absent(self.nodes@, b@);
                        }
                        return Err(
                            Error::NotFound {
                                entity: <String as vstd::string::StringExecFns>::from_str("node"),
                                id: b.clone(),
                            },
                        );
                    },
                };
                proof {
                    lemma_node_maps_get(self.nodes@, bi as int);
                }
                if !(self.nodes[bi].template == *template) {
                    return Err(
                        Error::TemplateMismatch {
                            expected: template.clone(),
                            found: self.nodes[bi].template.clone(),
                        },
                    );
                }
                match self.find_node(&id) {
                    Some(di) => {
                        proof {
                            lemma_node_maps_get(self.nodes@, di as int);
                        }
                        return Err(Error::DuplicateIdentifier { id });
                    },
                    None => {
                        proof {
                            lemma_node_maps_absent(self.nodes@, id@);
                        }
                    },
                }
                proof {
                    lemma_fresh_ready(m0, ord0, id@);
                    let k2 = key_of(m0[b@]);
                    assert(ord0[k2].contains(b@));
                    let s2 = ord0[k2];
                    let j = choose|j: int| 0 <= j < s2.len() && s2[j] == b@;
                    assert(chain_ok(m0, k2, s2));
                    if j > 0 {
                        assert(m0[b@].previous == Some(s2[j - 1]));
                        assert(m0.dom().contains(s2[j - 1]));
                    }
                }
                let pb = clone_opt(&self.nodes[bi].previous);
                let bpar = self.nodes[bi].parent.clone();
                let xlink = Some(id.clone());
                let btgt = Some(b.clone());
                self.patch_link(&btgt, &xlink, true);
                let ghost d1 = desc_map(self.nodes@);
                self.patch_link(&pb, &xlink, false);
                let ghost d2 = desc_map(self.nodes@);
                let out = id.clone();
                let p = NodePos {
                    id: id.clone(),
                    parent: bpar.clone(),
                    previous: clone_opt(&pb),
                    next: Some(b.clone()),
                };
                let mut d = desc;
                d.set_position(p);
                let n = Node {
                    id,
                    template: template.clone(),
                    parent: bpar,
                    previous: pb,
                    next: Some(b.clone()),
                    node: d,
                };
                proof {
                    assert(pos_sync(n));
                }
                self.put_node(n);
                proof {
                    let m4 = pos_map(self.nodes@);
                    assert(m4 == attach_before_m(m0, out@, b@, template@));
                    let ord2 = lemma_close_before(m0, ord0, out@, b@, template@);
                    assert(exists|o: Map<CKey, Seq<IdV>>| chains_ok(pos_map(self.nodes@), o));
                    assert forall|o: IdV| #[trigger] d0.dom().contains(o) implies payload_same(
                        d0[o],
                        desc_map(self.nodes@)[o],
                    ) by {
                        lemma_payload_same_trans(d0[o], d1[o], d2[o]);
                        if o == out@ {
                        } else {
                            assert(desc_map(self.nodes@)[o] == d2[o]);
                        }
                        lemma_payload_same_trans(d0[o], d2[o], desc_map(self.nodes@)[o]);
                    }
                    assert(all_pos_sync(self.nodes@));
                }
                self.order = Ghost(
                    choose|o: Map<CKey, Seq<IdV>>| chains_ok(pos_map(self.nodes@), o),
                );
                Ok(out)
            },
            NodePlacement::Into(p) => {
                if self.slot_occupied(template, p) {
                    return Err(Error::NonEmptyParent { parent: p.clone(), id: template.clone() });
                }
                match self.find_node(&id) {
                    Some(di) => {
                        proof {
                            lemma_node_maps_get(self.nodes@, di as int);
                        }
                        return Err(Error::DuplicateIdentifier { id });
                    },
                    None => {
                        proof {
                            lemma_node_maps_absent(self.nodes@, id@);
                        }
                    },
                }
                let out = id.clone();
                let pp = NodePos {
                    id: id.clone(),
                    parent: p.clone(),
                    previous: None,
                    next: None,
                };
                let mut d = desc;
                d.set_position(pp);
                let n = Node {
                    id,
                    template: template.clone(),
                    parent: p.clone(),
                    previous: None,
                    next: None,
                    node: d,
                };
                proof {
                    assert(pos_sync(n));
                }
                self.put_node(n);
                proof {
                    lemma_fresh_ready(m0, ord0, out@);
                    let m4 = pos_map(self.nodes@);
                    assert(m4 == attach_into_m(m0, out@, template@, p@));
                    let ord2 = lemma_close_into(m0, ord0, out@, template@, p@);
                    assert(exists|o: Map<CKey, Seq<IdV>>| chains_ok(pos_map(self.nodes@), o));
                    assert forall|o: IdV| #[trigger] d0.dom().contains(o) implies payload_same(
                        d0[o],
                        desc_map(self.nodes@)[o],
                    ) by {
                        assert(desc_map(self.nodes@)[o] == d0[o]);
                        lemma_payload_same_refl(d0[o]);
                    }
                    assert(all_pos_sync(self.nodes@));
                }
                self.order = Ghost(
                    choose|o: Map<CKey, Seq<IdV>>| chains_ok(pos_map(self.nodes@), o),
                );
                Ok(out)
            },
        }
    }

    /// Creates a node under a fresh identifier and threads it into the
    /// sibling chain at the requested placement, returning the new id.
    pub fn create_node(
        &mut self,
        template: &Identifier,
        placement: &NodePlacement,
        desc: NodeDesc,
    ) -> (r: Result<Identifier, Error>)
        requires
            old(self).wf(),
        ensures
            final(self).wf(),
            final(self).templates_map() == old(self).templates_map(),
            match r {
                Ok(x) => {
                    &&& crate::ident::uuid_accepts(x@)
                    &&& old(self).templates_map().dom().contains(template@)
                    &&& !old(self).nodes_map().dom().contains(x@)
                    &&& placement_ok(old(self).nodes_map(), template@, *placement)
                    &&& final(self).nodes_map() == create_m(
                        old(self).nodes_map(),
                        x@,
                        template@,
                        *placement,
                    )
                    &&& final(self).descs().dom() =~= old(self).descs().dom().insert(x@)
                    &&& payload_same(desc, final(self).descs()[x@])
                    &&& forall|o: IdV| #[trigger]
                        old(self).descs().dom().contains(o) ==> payload_same(
                            old(self).descs()[o],
                            final(self).descs()[o],
                        )
                },
                Err(e) => {
                    &&& final(self).nodes_map() == old(self).nodes_map()
                    &&& final(self).descs() == old(self).descs()
                    &&& match e {
                        Error::NotFound { entity, id: eid } => (entity@ == "template"@ && eid@
                            == template@ && !old(self).templates_map().dom().contains(template@))
                            || (entity@ == "node"@ && old(self).templates_map().dom().contains(
                            template@,
                        ) && (match *placement {
                            NodePlacement::After(a) => eid@ == a@ && !old(
                                self,
                            ).nodes_map().dom().contains(a@),
                            NodePlacement::Before(b) => eid@ == b@ && !old(
                                self,
                            ).nodes_map().dom().contains(b@),
                            NodePlacement::Into(_) => false,
                        })),
                        Error::TemplateMismatch { expected, found } => {
                            &&& old(self).templates_map().dom().contains(template@)
                            &&& match *placement {
                                NodePlacement::After(a) => old(self).nodes_map().dom().contains(a@)
                                    && expected@ == template@ && found@ == old(self).nodes_map()[
                                    a@
                                ].template && found@ != template@,
                                NodePlacement::Before(b) => old(self).nodes_map().dom().contains(
                                    b@,
                                ) && expected@ == template@ && found@ == old(self).nodes_map()[
                                    b@
                                ].template && found@ != template@,
                                NodePlacement::Into(_) => false,
                            }
                        },
                        Error::NonEmptyParent { parent: p2, id: tid } => {
                            &&& old(self).templates_map().dom().contains(template@)
                            &&& match *placement {
                                NodePlacement::Into(p) => p2@ == p@ && tid@ == template@
                                    && !collection_empty(
                                    old(self).nodes_map(),
                                    CKey { template: template@, parent: p@ },
                                ),
                                _ => false,
                            }
                        },
                        Error::DuplicateIdentifier { id: i2 } => {
                            &&& old(self).templates_map().dom().contains(template@)
                            &&& placement_ok(old(self).nodes_map(), template@, *placement)
                            &&& old(self).nodes_map().dom().contains(i2@)
                        },
                        _ => false,
                    }
                },
            },
            (!old(self).templates_map().dom().contains(template@) || !placement_ok(
                old(self).nodes_map(),
                template@,
                *placement,
            )) ==> r is Err,
    {
        let id = Identifier::new();
        self.create_node_with_id(id, template, placement, desc)
    }

    /// Chain integrity: in a well-formed store, every collection's members
    /// form one doubly-linked chain. There is an order listing every member of
    /// the collection exactly once in which each record's `previous` and
    /// `next` name precisely its neighbours, the head's `previous` and the
    /// tail's `next` empty — so walking `next` from the head visits every
    /// member once and ends at the tail, and walking `previous` from the tail
    /// yields the same order reversed.
    pub proof fn lemma_chain_integrity(&self, k: CKey)
        requires
            self.wf(),
        ensures
            exists|ord: Seq<IdV>|
                chain_ok(self.nodes_map(), k, ord) && (forall|id: IdV| #[trigger]
                    self.nodes_map().dom().contains(id) && key_of(self.nodes_map()[id]) == k
                        ==> ord.contains(id)),
    {
        let m = self.nodes_map();
        if self.order@.dom().contains(k) {
            let ord = self.order@[k];
            assert(chain_ok(m, k, ord));
            assert forall|id: IdV| #[trigger]
                m.dom().contains(id) && key_of(m[id]) == k implies ord.contains(id) by {}
        } else {
            let ord = Seq::<IdV>::empty();
            assert(chain_ok(m, k, ord));
            assert forall|id: IdV| #[trigger]
                m.dom().contains(id) && key_of(m[id]) == k implies ord.contains(id) by {
                assert(self.order@.dom().contains(key_of(m[id])));
            }
        }
    }

    /// The node that follows `id` in its chain, if any. In a well-formed
    /// store a stored `next` reference always resolves, so a broken link is
    /// never reported.
    pub fn next_node(&self, id: &Identifier) -> (r: Result<Option<&Node>, Error>)
        requires
            self.wf(),
        ensures
            match r {
                Ok(Some(n)) => {
                    &&& self.nodes_map().dom().contains(id@)
                    &&& self.nodes_map()[id@].next == Some(n.id@)
                    &&& node_v(*n) == self.nodes_map()[n.id@]
                    &&& n.node == self.descs()[n.id@]
                },
                Ok(None) => self.nodes_map().dom().contains(id@) && self.nodes_map()[id@].next
                    is None,
                Err(e) => e matches Error::NotFound { entity, id: eid } && entity@ == "node"@
                    && eid@ == id@ && !self.nodes_map().dom().contains(id@),
            },
    {
        let i = match self.find_node(id) {
            Some(i) => i,
            None => {
                proof {
                    lemma_node_maps_absent(self.nodes@, id@);
                }
                return Err(
                    Error::NotFound {
                        entity: <String as vstd::string::StringExecFns>::from_str("node"),
                        id: id.clone(),
                    },
                );
            },
        };
        proof {
            lemma_node_maps_get(self.nodes@, i as int);
        }
        let nxt = clone_opt(&self.nodes[i].next);
        match &nxt {
            Some(nid) => {
                proof {
                    let m = pos_map(self.nodes@);
                    let k = key_of(m[id@]);
                    assert(self.order@[k].contains(id@));
                    let s = self.order@[k];
                    let j = choose|j: int| 0 <= j < s.len() && s[j] == id@;
                    assert(chain_ok(m, k, s));
                    assert(j < s.len() - 1 && m.dom().contains(s[j + 1]));
                    lemma_node_maps_member(self.nodes@, nid@);
                }
                let ni = self.locate_node(nid);
                proof {
                    lemma_node_maps_get(self.nodes@, ni as int);
                }
                Ok(Some(&self.nodes[ni]))
            },
            None => Ok(None),
        }
    }

    /// The node that precedes `id` in its chain, if any. In a well-formed
    /// store a stored `previous` reference always resolves, so a broken link
    /// is never reported.
    pub fn previous_node(&self, id: &Identifier) -> (r: Result<Option<&Node>, Error>)
        requires
            self.wf(),
        ensures
            match r {
                Ok(Some(n)) => {
                    &&& self.nodes_map().dom().contains(id@)
                    &&& self.nodes_map()[id@].previous == Some(n.id@)
                    &&& node_v(*n) == self.nodes_map()[n.id@]
                    &&& n.node == self.descs()[n.id@]
                },
                Ok(None) => self.nodes_map().dom().contains(id@) && self.nodes_map()[id@].previous
                    is None,
                Err(e) => e matches Error::NotFound { entity, id: eid } && entity@ == "node"@
                    && eid@ == id@ && !self.nodes_map().dom().contains(id@),
            },
    {
        let i = match self.find_node(id) {
            Some(i) => i,
            None => {
                proof {
                    lemma_node_maps_absent(self.nodes@, id@);
                }
                return Err(
                    Error::NotFound {
                        entity: <String as vstd::string::StringExecFns>::from_str("node"),
                        id: id.clone(),
                    },
                );
            },
        };
        proof {
            lemma_node_maps_get(self.nodes@, i as int);
        }
        let prv = clone_opt(&self.nodes[i].previous);
        match &prv {
            Some(pid) => {
                proof {
                    let m = pos_map(self.nodes@);
                    let k = key_of(m[id@]);
                    assert(self.order@[k].contains(id@));
                    let s = self.order@[k];
                    let j = choose|j: int| 0 <= j < s.len() && s[j] == id@;
                    assert(chain_ok(m, k, s));
                    assert(j > 0 && m.dom().contains(s[j - 1]));
                    lemma_node_maps_member(self.nodes@, pid@);
                }
                let pi = self.locate_node(pid);
                proof {
                    lemma_node_maps_get(self.nodes@, pi as int);
                }
                Ok(Some(&self.nodes[pi]))
            },
            None => Ok(None),
        }
    }

    /// In a well-formed store the payload map and the position map cover the
    /// same records, and each payload's embedded position mirrors the indexed
    /// one: its id is the record's key and its placement and sibling links
    /// agree with the position map.
    pub proof fn lemma_desc_position_sync(&self)
        requires
            self.wf(),
        ensures
            self.descs().dom() == self.nodes_map().dom(),
            forall|id: IdV| #[trigger]
                self.nodes_map().dom().contains(id) ==> {
                    let d = self.descs()[id];
                    let nv = self.nodes_map()[id];
                    &&& pos_of(d).id@ == id
                    &&& pos_of(d).parent@ == nv.parent
                    &&& pos_of(d).previous.deep_view() == nv.previous
                    &&& pos_of(d).next.deep_view() == nv.next
                },
    {
        lemma_node_maps_doms(self.nodes@);
        assert forall|id: IdV| #[trigger] self.nodes_map().dom().contains(id) implies {
            let d = self.descs()[id];
            let nv = self.nodes_map()[id];
            &&& pos_of(d).id@ == id
            &&& pos_of(d).parent@ == nv.parent
            &&& pos_of(d).previous.deep_view() == nv.previous
            &&& pos_of(d).next.deep_view() == nv.next
        } by {
            lemma_node_maps_member(self.nodes@, id);
            let i = choose|i: int|
                0 <= i < self.nodes@.len() && (#[trigger] self.nodes@[i]).id@ == id;
            lemma_node_maps_get(self.nodes@, i);
            assert(pos_sync(self.nodes@[i]));
        }
    }

    /// The node's parent container and the collection it sits in, or nothing
    /// for a node placed at the template root or under a container that no
    /// longer resolves.
    pub fn parent_of(&self, id: &Identifier) -> (r: Result<Option<(&Node, &String)>, Error>)
        requires
            self.wf(),
        ensures
            match r {
                Ok(Some((n, c))) => {
                    &&& self.nodes_map().dom().contains(id@)
                    &&& self.nodes_map()[id@].parent matches ParentV::Child { parent, collection }
                        && parent == n.id@ && collection == c@
                    &&& node_v(*n) == self.nodes_map()[n.id@]
                    &&& n.node == self.descs()[n.id@]
                },
                Ok(None) => self.nodes_map().dom().contains(id@) && (self.nodes_map()[id@].parent
                    is Root || (self.nodes_map()[id@].parent matches ParentV::Child { parent, .. }
                    && !self.nodes_map().dom().contains(parent))),
                Err(e) => e matches Error::NotFound { entity, id: eid } && entity@ == "node"@
                    && eid@ == id@ && !self.nodes_map().dom().contains(id@),
            },
    {
        let i = match self.find_node(id) {
            Some(i) => i,
            None => {
                proof {
                    lemma_node_maps_absent(self.nodes@, id@);
                }
                return Err(
                    Error::NotFound {
                        entity: <String as vstd::string::StringExecFns>::from_str("node"),
                        id: id.clone(),
                    },
                );
            },
        };
        proof {
            lemma_node_maps_get(self.nodes@, i as int);
        }
        match &self.nodes[i].parent {
            Parent::Root => Ok(None),
            Parent::Child { parent, collection } => match self.find_node(parent) {
                Some(pi) => {
                    proof {
                        lemma_node_maps_get(self.nodes@, pi as int);
                    }
                    Ok(Some((&self.nodes[pi], collection)))
                },
                None => {
                    proof {
                        lemma_node_maps_absent(self.nodes@, parent@);
                    }
                    Ok(None)
                },
            },
        }
    }

    /// The template record a node belongs to.
    pub fn template_of(&self, id: &Identifier) -> (r: Result<Template, Error>)
        requires
            self.wf(),
        ensures
            match r {
                Ok(t) => {
                    &&& self.nodes_map().dom().contains(id@)
                    &&& t.id@ == self.nodes_map()[id@].template
                    &&& self.templates_map().dom().contains(t.id@)
                    &&& t == self.templates_map()[t.id@]
                },
                Err(e) => match e {
                    Error::NotFound { entity, id: eid } => entity@ == "node"@ && eid@ == id@
                        && !self.nodes_map().dom().contains(id@),
                    Error::OrphanedNode { id: eid } => eid@ == id@
                        && self.nodes_map().dom().contains(id@) && !self.templates_map(
                    ).dom().contains(self.nodes_map()[id@].template),
                    _ => false,
                },
            },
            r is Err <==> (!self.nodes_map().dom().contains(id@) || !self.templates_map(
            ).dom().contains(self.nodes_map()[id@].template)),
    {
        let i = match self.find_node(id) {
            Some(i) => i,
            None => {
                proof {
                    lemma_node_maps_absent(self.nodes@, id@);
                }
                return Err(
                    Error::NotFound {
                        entity: <String as vstd::string::StringExecFns>::from_str("node"),
                        id: id.clone(),
                    },
                );
            },
        };
        proof {
            lemma_node_maps_get(self.nodes@, i as int);
        }
        match self.get_template_by_id(&self.nodes[i].template) {
            Some(t) => {
                proof {
                    let key = self.nodes@[i as int].template@;
                    lemma_tpl_map_member(self.templates@, key);
                    let j = choose|j: int|
                        0 <= j < self.templates@.len() && (#[trigger] self.templates@[j]).id@
                            == key;
                    lemma_tpl_map_get(self.templates@, j);
                }
                Ok(t)
            },
            None => Err(Error::OrphanedNode { id: id.clone() }),
        }
    }

    /// Every template that inherits from the given target (or, with no
    /// target, every template that inherits from nothing).
    pub fn all_inherit(&self, inherit: &Option<Identifier>) -> (r: Vec<Template>)
        requires
            self.wf(),
        ensures
            forall|i: int|
                0 <= i < r@.len() ==> self.templates_map().dom().contains(
                    (#[trigger] r@[i]).id@,
                ) && r@[i] == self.templates_map()[r@[i].id@] && r@[i].inherit.deep_view()
                    == inherit.deep_view(),
            forall|id: IdV| #[trigger]
                self.templates_map().dom().contains(id) && self.templates_map()[
                    id
                ].inherit.deep_view() == inherit.deep_view() ==> exists|i: int|
                    0 <= i < r@.len() && (#[trigger] r@[i]).id@ == id,
    {
        let mut out: Vec<Template> = Vec::new();
        let mut i: usize = 0;
        while i < self.templates.len()
            invariant
                self.wf(),
                i <= self.templates@.len(),
                forall|j: int|
                    0 <= j < out@.len() ==> exists|k: int|
                        0 <= k < i && #[trigger] out@[j] == self.templates@[k],
                forall|k: int|
                    0 <= k < i && (#[trigger] self.templates@[k]).inherit.deep_view()
                        == inherit.deep_view() ==> exists|j: int| 0 <= j < out@.len()
                        && #[trigger] out@[j].id@ == self.templates@[k].id@,
                forall|j: int|
                    0 <= j < out@.len() ==> (#[trigger] out@[j]).inherit.deep_view()
                        == inherit.deep_view(),
            decreases self.templates@.len() - i,
        {
            let t = &self.templates[i];
            let matches_target = match (&t.inherit, inherit) {
                (Some(a), Some(b)) => *a == *b,
                (None, None) => true,
                _ => false,
            };
            if matches_target {
                let ghost before = out@;
                out.push(t.clone());
                proof {
                    assert(out@[before.len() as int] == self.templates@[i as int]);
                    assert forall|j: int| 0 <= j < out@.len() implies exists|k: int|
                        0 <= k < i + 1 && #[trigger] out@[j] == self.templates@[k] by {
                        if j < before.len() {
                            assert(out@[j] == before[j]);
                        }
                    }
                    assert forall|k: int|
                        0 <= k < i + 1 && (#[trigger] self.templates@[k]).inherit.deep_view()
                            == inherit.deep_view() implies exists|j: int| 0 <= j < out@.len()
                        && #[trigger] out@[j].id@ == self.templates@[k].id@ by {
                        if k == i as int {
                            assert(out@[before.len() as int].id@ == self.templates@[k].id@);
                        } else {
                            let j = choose|j: int|
                                0 <= j < before.len() && #[trigger] before[j].id@
                                    == self.templates@[k].id@;
                            assert(out@[j] == before[j]);
                            assert(out@[j].id@ == self.templates@[k].id@);
                        }
                    }
                }
            }
            i += 1;
        }
        proof {
            assert forall|i: int| 0 <= i < out@.len() implies self.templates_map().dom().contains(
                (#[trigger] out@[i]).id@,
            ) && out@[i] == self.templates_map()[out@[i].id@] && out@[i].inherit.deep_view()
                == inherit.deep_view() by {
                let k = choose|k: int|
                    0 <= k < self.templates@.len() && #[trigger] out@[i] == self.templates@[k];
                lemma_tpl_map_get(self.templates@, k);
            }
            assert forall|id: IdV| #[trigger]
                self.templates_map().dom().contains(id) && self.templates_map()[
                id
            ].inherit.deep_view() == inherit.deep_view() implies exists|i: int|
                0 <= i < out@.len() && (#[trigger] out@[i]).id@ == id by {
                lemma_tpl_map_member(self.templates@, id);
                let j = choose|j: int|
                    0 <= j < self.templates@.len() && (#[trigger] self.templates@[j]).id@ == id;
                lemma_tpl_map_get(self.templates@, j);
            }
        }
        out
    }

    /// Every template using the given layout kind.
    pub fn all_with_layout(&self, layout: LayoutKind) -> (r: Vec<Template>)
        requires
            self.wf(),
        ensures
            forall|i: int|
                0 <= i < r@.len() ==> self.templates_map().dom().contains(
                    (#[trigger] r@[i]).id@,
                ) && r@[i] == self.templates_map()[r@[i].id@] && r@[i].layout == layout,
            forall|id: IdV| #[trigger]
                self.templates_map().dom().contains(id) && self.templates_map()[id].layout
                    == layout ==> exists|i: int| 0 <= i < r@.len() && (#[trigger] r@[i]).id@ == id,
    {
        let mut out: Vec<Template> = Vec::new();
        let mut i: usize = 0;
        while i < self.templates.len()
            invariant
                self.wf(),
                i <= self.templates@.len(),
                forall|j: int|
                    0 <= j < out@.len() ==> exists|k: int|
                        0 <= k < i && #[trigger] out@[j] == self.templates@[k],
                forall|k: int|
                    0 <= k < i && (#[trigger] self.templates@[k]).layout == layout ==> exists|
                        j: int,
                    | 0 <= j < out@.len() && #[trigger] out@[j].id@ == self.templates@[k].id@,
                forall|j: int| 0 <= j < out@.len() ==> (#[trigger] out@[j]).layout == layout,
            decreases self.templates@.len() - i,
        {
            let t = &self.templates[i];
            if t.layout == layout {
                let ghost before = out@;
                out.push(t.clone());
                proof {
                    assert(out@[before.len() as int] == self.templates@[i as int]);
                    assert forall|j: int| 0 <= j < out@.len() implies exists|k: int|
                        0 <= k < i + 1 && #[trigger] out@[j] == self.templates@[k] by {
                        if j < before.len() {
                            assert(out@[j] == before[j]);
                        }
                    }
                    assert forall|k: int|
                        0 <= k < i + 1 && (#[trigger] self.templates@[k]).layout
                            == layout implies exists|j: int| 0 <= j < out@.len()
                        && #[trigger] out@[j].id@ == self.templates@[k].id@ by {
                        if k == i as int {
                            assert(out@[before.len() as int].id@ == self.templates@[k].id@);
                        } else {
                            let j = choose|j: int|
                                0 <= j < before.len() && #[trigger] before[j].id@
                                    == self.templates@[k].id@;
                            assert(out@[j] == before[j]);
                            assert(out@[j].id@ == self.templates@[k].id@);
                        }
                    }
                }
            }
            i += 1;
        }
        proof {
            assert forall|i: int| 0 <= i < out@.len() implies self.templates_map().dom().contains(
                (#[trigger] out@[i]).id@,
            ) && out@[i] == self.templates_map()[out@[i].id@] && out@[i].layout == layout by {
                let k = choose|k: int|
                    0 <= k < self.templates@.len() && #[trigger] out@[i] == self.templates@[k];
                lemma_tpl_map_get(self.templates@, k);
            }
            assert forall|id: IdV| #[trigger]
                self.templates_map().dom().contains(id) && self.templates_map()[id].layout
                == layout implies exists|i: int| 0 <= i < out@.len() && (#[trigger] out@[i]).id@
                == id by {
                lemma_tpl_map_member(self.templates@, id);
                let j = choose|j: int|
                    0 <= j < self.templates@.len() && (#[trigger] self.templates@[j]).id@ == id;
                lemma_tpl_map_get(self.templates@, j);
            }
        }
        out
    }

    /// Rewrites the position of the record at index `i`: its collection slot
    /// and both sibling links, in the indexed fields and in the payload alike.
    /// Its identity, template and content stay as they were.
    fn reposition_at(
        &mut self,
        i: usize,
        parent: Parent,
        previous: Option<Identifier>,
        next: Option<Identifier>,
    )
        requires
            uniq_nodes(old(self).nodes@),
            i < old(self).nodes@.len(),
        ensures
            uniq_nodes(final(self).nodes@),
            all_pos_sync(old(self).nodes@) ==> all_pos_sync(final(self).nodes@),
            final(self).templates@ == old(self).templates@,
            final(self).order == old(self).order,
            ({
                let oldn = old(self).nodes@[i as int];
                let id = oldn.id@;
                &&& pos_map(final(self).nodes@) == pos_map(old(self).nodes@).insert(
                    id,
                    NodeV {
                        template: oldn.template@,
                        parent: parent@,
                        previous: previous.deep_view(),
                        next: next.deep_view(),
                    },
                )
                &&& desc_map(final(self).nodes@).dom() =~= desc_map(
                    old(self).nodes@,
                ).dom().insert(id)
                &&& payload_same(oldn.node, desc_map(final(self).nodes@)[id])
                &&& kind_of(desc_map(final(self).nodes@)[id]) == kind_of(oldn.node)
                &&& category_of(desc_map(final(self).nodes@)[id]) == category_of(oldn.node)
                &&& forall|o: IdV| #[trigger]
                    desc_map(old(self).nodes@).dom().contains(o) && o != id ==> desc_map(
                        final(self).nodes@,
                    )[o] == desc_map(old(self).nodes@)[o]
            }),
    {
        let ghost s0 = self.nodes@;
        proof {
            lemma_node_maps_remove(s0, i as int);
            lemma_node_maps_get(s0, i as int);
        }
        let mut n = self.nodes.remove(i);
        proof {
            let s1 = self.nodes@;
            s0.remove_ensures(i as int);
            assert forall|a: int, b: int|
                #![trigger s1[a], s1[b]]
                0 <= a < b < s1.len() implies s1[a].id@ != s1[b].id@ by {}
            if all_pos_sync(s0) {
                assert forall|j: int| 0 <= j < s1.len() implies pos_sync(#[trigger] s1[j]) by {
                    let orig = if j < i as int {
                        j
                    } else {
                        j + 1
                    };
                    assert(s1[j] == s0[orig]);
                }
            }
        }
        n.previous = clone_opt(&previous);
        n.next = clone_opt(&next);
        n.parent = parent.clone();
        let p = NodePos { id: n.id.clone(), parent, previous, next };
        n.node.set_position(p);
        let ghost nfixed = n;
        self.put_node(n);
        proof {
            let oldn = s0[i as int];
            let id = oldn.id@;
            assert(pos_map(self.nodes@) =~= pos_map(s0).insert(
                id,
                NodeV {
                    template: oldn.template@,
                    parent: nfixed.parent@,
                    previous: nfixed.previous.deep_view(),
                    next: nfixed.next.deep_view(),
                },
            ));
            assert(desc_map(self.nodes@) =~= desc_map(s0).insert(id, nfixed.node));
            assert(desc_map(self.nodes@).dom() =~= desc_map(s0).dom().insert(id));
            if all_pos_sync(s0) {
                assert(pos_sync(nfixed));
                assert(all_pos_sync(self.nodes@));
            }
        }
    }
}

} // verus!
