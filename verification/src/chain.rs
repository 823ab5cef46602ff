//! The mathematical model of the sibling-ordering scheme: flat records keyed
//! by identifier, one doubly-linked chain per collection, and the stitch and
//! splice transformations that maintain them.

use vstd::prelude::*;
use crate::nodes::Node;
use crate::types::ParentV;

verus! {

/// The textual form of an identifier.
pub type IdV = Seq<char>;

/// Names one collection: a template together with a placement.
pub ghost struct CKey {
    pub template: IdV,
    pub parent: ParentV,
}

/// The position attributes of one stored record.
pub ghost struct NodeV {
    pub template: IdV,
    pub parent: ParentV,
    pub previous: Option<IdV>,
    pub next: Option<IdV>,
}

/// The record's position attributes, as stored in its indexed fields.
pub open spec fn node_v(n: Node) -> NodeV {
    NodeV {
        template: n.template@,
        parent: n.parent@,
        previous: n.previous.deep_view(),
        next: n.next.deep_view(),
    }
}

/// The collection a record belongs to.
pub open spec fn key_of(nv: NodeV) -> CKey {
    CKey { template: nv.template, parent: nv.parent }
}

pub open spec fn with_prev(nv: NodeV, previous: Option<IdV>) -> NodeV {
    NodeV { previous, ..nv }
}

pub open spec fn with_next(nv: NodeV, next: Option<IdV>) -> NodeV {
    NodeV { next, ..nv }
}

/// Whether `s` lists exactly one well-linked chain: every listed record exists,
/// belongs to collection `k`, and its `previous`/`next` pointers name precisely
/// its neighbours in `s`, with the head's `previous` and the tail's `next`
/// empty.
pub open spec fn chain_ok(m: Map<IdV, NodeV>, k: CKey, s: Seq<IdV>) -> bool {
    &&& s.no_duplicates()
    &&& forall|i: int| 0 <= i < s.len() ==> m.dom().contains(#[trigger] s[i])
    &&& forall|i: int| 0 <= i < s.len() ==> key_of(m[#[trigger] s[i]]) == k
    &&& forall|i: int|
        0 <= i < s.len() ==> m[#[trigger] s[i]].previous == (if i == 0 {
            None
        } else {
            Some(s[i - 1])
        })
    &&& forall|i: int|
        0 <= i < s.len() ==> m[#[trigger] s[i]].next == (if i == s.len() - 1 {
            None
        } else {
            Some(s[i + 1])
        })
}

/// The global ordering invariant: `ord` assigns every collection its chain
/// order, each chain is well linked, and every stored record appears in the
/// chain of exactly its own collection.
pub open spec fn chains_ok(m: Map<IdV, NodeV>, ord: Map<CKey, Seq<IdV>>) -> bool {
    &&& forall|k: CKey| ord.dom().contains(k) ==> chain_ok(m, k, #[trigger] ord[k])
    &&& forall|id: IdV| #[trigger]
        m.dom().contains(id) ==> ord.dom().contains(key_of(m[id])) && ord[key_of(
            m[id],
        )].contains(id)
}

/// Re-links the two neighbours of `x` to each other, without touching `x`'s
/// own record: the first half of removing `x` from its chain.
pub open spec fn stitch_neighbors_m(m: Map<IdV, NodeV>, x: IdV) -> Map<IdV, NodeV> {
    let xv = m[x];
    let m1 = match xv.next {
        Some(nid) => if m.dom().contains(nid) {
            m.insert(nid, with_prev(m[nid], xv.previous))
        } else {
            m
        },
        None => m,
    };
    match xv.previous {
        Some(pid) => if m1.dom().contains(pid) {
            m1.insert(pid, with_next(m1[pid], xv.next))
        } else {
            m1
        },
        None => m1,
    }
}

/// After stitching, clears `x`'s own links: removing `x` from its chain.
pub open spec fn stitch_m(m: Map<IdV, NodeV>, x: IdV) -> Map<IdV, NodeV> {
    stitch_neighbors_m(m, x).insert(x, with_prev(with_next(m[x], None), None))
}

/// Re-linking the neighbours of `x` takes `x` out of its chain: the source
/// chain without `x` is well linked again, every other chain is untouched, and
/// no record changes its collection.
pub proof fn lemma_detach(m: Map<IdV, NodeV>, ord: Map<CKey, Seq<IdV>>, x: IdV, xi: int)
    requires
        chains_ok(m, ord),
        m.dom().contains(x),
        0 <= xi < ord[key_of(m[x])].len(),
        ord[key_of(m[x])][xi] == x,
    ensures
        ({
            let k1 = key_of(m[x]);
            let s1 = ord[k1];
            let m1 = stitch_neighbors_m(m, x);
            &&& m1.dom() == m.dom()
            &&& m1[x] == m[x]
            &&& chain_ok(m1, k1, s1.remove(xi))
            &&& forall|k: CKey|
                ord.dom().contains(k) && k != k1 ==> chain_ok(m1, k, #[trigger] ord[k])
            &&& forall|id: IdV| #[trigger]
                m.dom().contains(id) ==> key_of(m1[id]) == key_of(m[id])
            &&& forall|id: IdV| #[trigger]
                m.dom().contains(id) && key_of(m[id]) != k1 ==> m1[id] == m[id]
        }),
{
    let k1 = key_of(m[x]);
    let s1 = ord[k1];
    let n = s1.len() as int;
    let m1 = stitch_neighbors_m(m, x);
    let s2 = s1.remove(xi);
    s1.remove_ensures(xi);
    assert(chain_ok(m, k1, s1));
    let prv = if xi == 0 {
        None
    } else {
        Some(s1[xi - 1])
    };
    let nxt = if xi == n - 1 {
        None
    } else {
        Some(s1[xi + 1])
    };
    assert(m[x].previous == prv);
    assert(m[x].next == nxt);
    // the two neighbours, when present, exist, sit in collection k1, and are
    // distinct from x and from each other
    if xi < n - 1 {
        assert(m.dom().contains(s1[xi + 1]));
        assert(s1[xi + 1] != x);
    }
    if xi > 0 {
        assert(m.dom().contains(s1[xi - 1]));
        assert(s1[xi - 1] != x);
        if xi < n - 1 {
            assert(s1[xi - 1] != s1[xi + 1]);
        }
    }
    assert(m1.dom() =~= m.dom());
    assert(m1[x] == m[x]);
    // every record keeps its collection: only link fields were rewritten
    assert forall|id: IdV| #[trigger] m.dom().contains(id) implies key_of(m1[id]) == key_of(
        m[id],
    ) by {}
    // records outside collection k1 are untouched
    assert forall|id: IdV| #[trigger]
        m.dom().contains(id) && key_of(m[id]) != k1 implies m1[id] == m[id] by {
        if xi < n - 1 {
            assert(key_of(m[s1[xi + 1]]) == k1);
        }
        if xi > 0 {
            assert(key_of(m[s1[xi - 1]]) == k1);
        }
    }
    // the source chain without x is well linked
    assert(s2.no_duplicates()) by {
        assert forall|i: int, j: int| 0 <= i < j < s2.len() implies s2[i] != s2[j] by {
            assert(s2[i] == (if i < xi {
                s1[i]
            } else {
                s1[i + 1]
            }));
            assert(s2[j] == (if j < xi {
                s1[j]
            } else {
                s1[j + 1]
            }));
        }
    }
    assert forall|i: int| 0 <= i < s2.len() implies {
        &&& m1.dom().contains(#[trigger] s2[i])
        &&& key_of(m1[s2[i]]) == k1
        &&& m1[s2[i]].previous == (if i == 0 {
            None
        } else {
            Some(s2[i - 1])
        })
        &&& m1[s2[i]].next == (if i == s2.len() - 1 {
            None
        } else {
            Some(s2[i + 1])
        })
    } by {
        let orig = if i < xi {
            i
        } else {
            i + 1
        };
        assert(s2[i] == s1[orig]);
        if i > 0 {
            assert(s2[i - 1] == (if i - 1 < xi {
                s1[i - 1]
            } else {
                s1[i]
            }));
        }
        if i < s2.len() - 1 {
            assert(s2[i + 1] == (if i + 1 < xi {
                s1[i + 1]
            } else {
                s1[i + 2]
            }));
        }
    }
    // chains of other collections are untouched
    assert forall|k: CKey| ord.dom().contains(k) && k != k1 implies chain_ok(
        m1,
        k,
        #[trigger] ord[k],
    ) by {
        let s = ord[k];
        assert(chain_ok(m, k, s));
        assert forall|i: int| 0 <= i < s.len() implies m1[#[trigger] s[i]] == m[s[i]] by {
            assert(key_of(m[s[i]]) == k);
        }
    }
}

/// Splicing `x` in at position `p` of a well-linked chain produces a
/// well-linked chain again; every other chain that does not mention `x` is
/// untouched, and no existing record changes its collection.
pub proof fn lemma_insert_at(m: Map<IdV, NodeV>, k2: CKey, s2: Seq<IdV>, x: IdV, p: int)
    requires
        chain_ok(m, k2, s2),
        0 <= p <= s2.len(),
        !s2.contains(x),
    ensures
        ({
            let prv = if p == 0 {
                None
            } else {
                Some(s2[p - 1])
            };
            let nxt = if p == s2.len() {
                None
            } else {
                Some(s2[p])
            };
            let m1 = match nxt {
                Some(nid) => m.insert(nid, with_prev(m[nid], Some(x))),
                None => m,
            };
            let m2 = match prv {
                Some(pid) => m1.insert(pid, with_next(m1[pid], Some(x))),
                None => m1,
            };
            let m3 = m2.insert(
                x,
                NodeV { template: k2.template, parent: k2.parent, previous: prv, next: nxt },
            );
            &&& m3.dom() == m.dom().insert(x)
            &&& chain_ok(m3, k2, s2.insert(p, x))
            &&& key_of(m3[x]) == k2
            &&& forall|id: IdV| #[trigger]
                m.dom().contains(id) && id != x ==> key_of(m3[id]) == key_of(m[id])
            &&& forall|id: IdV| #[trigger]
                m.dom().contains(id) && id != x && key_of(m[id]) != k2 ==> m3[id] == m[id]
        }),
{
    let n = s2.len() as int;
    let prv = if p == 0 {
        None
    } else {
        Some(s2[p - 1])
    };
    let nxt = if p == n {
        None
    } else {
        Some(s2[p])
    };
    let m1 = match nxt {
        Some(nid) => m.insert(nid, with_prev(m[nid], Some(x))),
        None => m,
    };
    let m2 = match prv {
        Some(pid) => m1.insert(pid, with_next(m1[pid], Some(x))),
        None => m1,
    };
    let m3 = m2.insert(
        x,
        NodeV { template: k2.template, parent: k2.parent, previous: prv, next: nxt },
    );
    let s3 = s2.insert(p, x);
    s2.insert_ensures(p, x);
    if p > 0 {
        assert(m.dom().contains(s2[p - 1]));
        assert(s2[p - 1] != x);
        if p < n {
            assert(s2[p - 1] != s2[p]);
        }
    }
    if p < n {
        assert(m.dom().contains(s2[p]));
        assert(s2[p] != x);
    }
    assert(m3.dom() =~= m.dom().insert(x));
    assert forall|id: IdV| #[trigger] m.dom().contains(id) && id != x implies key_of(m3[id])
        == key_of(m[id]) by {}
    assert forall|id: IdV| #[trigger]
        m.dom().contains(id) && id != x && key_of(m[id]) != k2 implies m3[id] == m[id] by {
        if p < n {
            assert(key_of(m[s2[p]]) == k2);
        }
        if p > 0 {
            assert(key_of(m[s2[p - 1]]) == k2);
        }
    }
    assert(s3.no_duplicates()) by {
        assert forall|i: int, j: int| 0 <= i < j < s3.len() implies s3[i] != s3[j] by {
            assert(s3[i] == (if i < p {
                s2[i]
            } else if i == p {
                x
            } else {
                s2[i - 1]
            }));
            assert(s3[j] == (if j < p {
                s2[j]
            } else if j == p {
                x
            } else {
                s2[j - 1]
            }));
            if s3[i] != x && s3[j] != x {
            } else {
            }
        }
    }
    assert forall|i: int| 0 <= i < s3.len() implies {
        &&& m3.dom().contains(#[trigger] s3[i])
        &&& key_of(m3[s3[i]]) == k2
        &&& m3[s3[i]].previous == (if i == 0 {
            None
        } else {
            Some(s3[i - 1])
        })
        &&& m3[s3[i]].next == (if i == s3.len() - 1 {
            None
        } else {
            Some(s3[i + 1])
        })
    } by {
        assert(s3[i] == (if i < p {
            s2[i]
        } else if i == p {
            x
        } else {
            s2[i - 1]
        }));
        if i > 0 {
            assert(s3[i - 1] == (if i - 1 < p {
                s2[i - 1]
            } else if i - 1 == p {
                x
            } else {
                s2[i - 2]
            }));
        }
        if i < s3.len() - 1 {
            assert(s3[i + 1] == (if i + 1 < p {
                s2[i + 1]
            } else if i + 1 == p {
                x
            } else {
                s2[i]
            }));
        }
        if i < p || i > p {
            let orig = if i < p {
                i
            } else {
                i - 1
            };
            assert(s3[i] == s2[orig]);
            assert(s2[orig] != x);
        }
    }
    assert(chain_ok(m3, k2, s3));
}

} // verus!
