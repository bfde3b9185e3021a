//! What the builder guarantees when the tables under the root form a tree:
//! every mapped page resolves to the frame it was mapped to, nothing that
//! resolved is lost, and the number of free frames that a mapping needs is
//! known beforehand.

use vstd::prelude::*;

use crate::addr::kern_va_of;
use crate::addr::KERNEL_VIRT_OFFSET;
use crate::addr::PHYS_VIRT_OFFSET;
use crate::paging::child_of;
use crate::paging::child_step;
use crate::paging::frame_ok;
use crate::paging::huge_leaf;
use crate::paging::index2;
use crate::paging::index3;
use crate::paging::index4;
use crate::paging::installed;
use crate::paging::lemma_child_step_wf;
use crate::paging::lemma_frame_round_trip;
use crate::paging::lemma_map_pages_wf;
use crate::paging::map_higher_half_spec;
use crate::paging::map_page;
use crate::paging::map_pages;
use crate::paging::resolve;
use crate::paging::table_flags;
use crate::paging::zero_entry;
use crate::paging::zero_table;
use crate::paging::EntryView;
use crate::paging::TablesView;
use crate::paging::DIRECT_MAP_PAGES;
use crate::paging::KERNEL_WINDOW_PAGES;

verus! {

/// Whether entry `i` of the root is present.
pub open spec fn top_present(s: TablesView, root: u64, i: int) -> bool {
    0 <= i < 512 && s.tables[root][i].present
}

/// The address that entry `i` of the root points to.
pub open spec fn top(s: TablesView, root: u64, i: int) -> u64 {
    child_of(s.tables[root][i])
}

/// Whether entry `j` of the table behind entry `i` of the root is present,
/// that table being one the builder knows.
pub open spec fn mid_present(s: TablesView, root: u64, i: int, j: int) -> bool {
    top_present(s, root, i) && s.tables.contains_key(top(s, root, i)) && 0 <= j < 512
        && s.tables[top(s, root, i)][j].present
}

/// The address that entry `j` of the table behind entry `i` of the root
/// points to.
pub open spec fn mid(s: TablesView, root: u64, i: int, j: int) -> u64 {
    child_of(s.tables[top(s, root, i)][j])
}

/// The tables under `root` form a tree down to the second level: no table
/// is reached by two ways or stands on two levels, no entry points to a
/// free frame, and the third level holds no leaves.
pub open spec fn is_tree(s: TablesView, root: u64) -> bool {
    &&& s.tables.contains_key(root)
    &&& forall|i: int| #[trigger]
        top_present(s, root, i) ==> top(s, root, i) != root && !s.free.contains(top(s, root, i))
    &&& forall|i: int, k: int|
        #[trigger] top_present(s, root, i) && #[trigger] top_present(s, root, k) && i != k ==> top(
            s,
            root,
            i,
        ) != top(s, root, k)
    &&& forall|i: int, j: int| #[trigger]
        mid_present(s, root, i, j) ==> !s.tables[top(s, root, i)][j].huge && mid(s, root, i, j)
            != root && !s.free.contains(mid(s, root, i, j))
    &&& forall|i: int, j: int, k: int|
        #[trigger] mid_present(s, root, i, j) && #[trigger] top_present(s, root, k) ==> mid(
            s,
            root,
            i,
            j,
        ) != top(s, root, k)
    &&& forall|i: int, j: int, k: int, l: int|
        #[trigger] mid_present(s, root, i, j) && #[trigger] mid_present(s, root, k, l) && (i != k
            || j != l) ==> mid(s, root, i, j) != mid(s, root, k, l)
}

/// A root without present entries is a tree.
pub proof fn lemma_empty_root_is_tree(s: TablesView, root: u64)
    requires
        s.tables.contains_key(root),
        forall|i: int| 0 <= i < 512 ==> !(#[trigger] s.tables[root][i]).present,
    ensures
        is_tree(s, root),
{
}

/// The last free frame is usable, holds no table, and is not among the
/// frames before it.
proof fn lemma_free_after_take(s: TablesView)
    requires
        s.wf(),
        s.free.len() > 0,
    ensures
        !s.free.drop_last().contains(s.free.last()),
        forall|x: u64| s.free.drop_last().contains(x) ==> s.free.contains(x),
        s.free.contains(s.free.last()),
        !s.tables.contains_key(s.free.last()),
        frame_ok(s.free.last()),
{
    let rest = s.free.drop_last();
    let n = s.free.len() - 1;
    assert(s.free[n] == s.free.last());
    if rest.contains(s.free.last()) {
        let i = choose|i: int| 0 <= i < rest.len() && rest[i] == s.free.last();
        assert(s.free[i] == rest[i]);
    }
    assert forall|x: u64| rest.contains(x) implies s.free.contains(x) by {
        let i = choose|i: int| 0 <= i < rest.len() && rest[i] == x;
        assert(s.free[i] == x);
    }
}

/// Walk-or-create from the root keeps the tree.
proof fn lemma_top_step_keeps_tree(s: TablesView, root: u64, index: int)
    requires
        s.wf(),
        is_tree(s, root),
        0 <= index < 512,
        child_step(s, root, index, table_flags()).1 is Ok,
    ensures
        is_tree(child_step(s, root, index, table_flags()).0, root),
        top_present(child_step(s, root, index, table_flags()).0, root, index),
        top(child_step(s, root, index, table_flags()).0, root, index) == child_step(
            s,
            root,
            index,
            table_flags(),
        ).1->Ok_0,
        forall|i: int, j: int|
            mid_present(s, root, i, j) ==> #[trigger] mid_present(
                child_step(s, root, index, table_flags()).0,
                root,
                i,
                j,
            ) && top(child_step(s, root, index, table_flags()).0, root, i) == top(s, root, i)
                && child_step(s, root, index, table_flags()).0.tables[top(s, root, i)]
                == s.tables[top(s, root, i)],
        forall|a: u64|
            s.tables.contains_key(a) && a != root ==> #[trigger] child_step(
                s,
                root,
                index,
                table_flags(),
            ).0.tables.contains_key(a) && child_step(s, root, index, table_flags()).0.tables[a]
                == s.tables[a],
        forall|i: int|
            top_present(s, root, i) ==> #[trigger] child_step(
                s,
                root,
                index,
                table_flags(),
            ).0.tables[root][i] == s.tables[root][i],
{
    let n = child_step(s, root, index, table_flags()).0;
    if !s.tables[root][index].present {
        let frame = s.free.last();
        lemma_free_after_take(s);
        lemma_frame_round_trip(frame);
        assert(n.tables[root] == s.tables[root].update(index, installed(s.tables[root][index], frame, table_flags())));
        assert(n.tables[frame] == zero_table());
        assert forall|i: int| 0 <= i < 512 implies top_present(n, root, i) == (top_present(
            s,
            root,
            i,
        ) || i == index) && (i != index ==> top(n, root, i) == top(s, root, i)) by {}
        assert(top(n, root, index) == frame);
        assert forall|i: int, j: int| #[trigger] mid_present(n, root, i, j) implies mid_present(
            s,
            root,
            i,
            j,
        ) && i != index && mid(n, root, i, j) == mid(s, root, i, j) && n.tables[top(n, root, i)][j]
            == s.tables[top(s, root, i)][j] by {
            if i == index {
                assert(n.tables[frame][j] == zero_entry());
            } else {
                assert(top_present(s, root, i));
            }
        }
        assert forall|i: int, j: int| mid_present(s, root, i, j) implies #[trigger] mid_present(
            n,
            root,
            i,
            j,
        ) && top(n, root, i) == top(s, root, i) && n.tables[top(s, root, i)] == s.tables[top(
            s,
            root,
            i,
        )] by {
            assert(top_present(s, root, i));
        }
        assert forall|i: int| #[trigger] top_present(n, root, i) implies top(n, root, i) != root
            && !n.free.contains(top(n, root, i)) by {
            if i != index {
                assert(top_present(s, root, i));
            }
        }
        assert forall|i: int, k: int|
            #[trigger] top_present(n, root, i) && #[trigger] top_present(n, root, k) && i
                != k implies top(n, root, i) != top(n, root, k) by {
            if i != index {
                assert(top_present(s, root, i));
            }
            if k != index {
                assert(top_present(s, root, k));
            }
        }
        assert forall|i: int, j: int, k: int|
            #[trigger] mid_present(n, root, i, j) && #[trigger] top_present(
                n,
                root,
                k,
            ) implies mid(n, root, i, j) != top(n, root, k) by {
            assert(mid_present(s, root, i, j));
            if k != index {
                assert(top_present(s, root, k));
            }
        }
        assert forall|i: int, j: int, k: int, l: int|
            #[trigger] mid_present(n, root, i, j) && #[trigger] mid_present(n, root, k, l) && (i
                != k || j != l) implies mid(n, root, i, j) != mid(n, root, k, l) by {
            assert(mid_present(s, root, i, j));
            assert(mid_present(s, root, k, l));
        }
        assert forall|i: int, j: int| #[trigger] mid_present(n, root, i, j) implies !n.tables[top(
            n,
            root,
            i,
        )][j].huge && mid(n, root, i, j) != root && !n.free.contains(mid(n, root, i, j)) by {
            assert(mid_present(s, root, i, j));
        }
    } else {
        assert(top_present(s, root, index));
    }
}

/// Walk-or-create from a table of the third level keeps the tree.
proof fn lemma_mid_step_keeps_tree(s: TablesView, root: u64, at: int, index: int)
    requires
        s.wf(),
        is_tree(s, root),
        top_present(s, root, at),
        0 <= index < 512,
        child_step(s, top(s, root, at), index, table_flags()).1 is Ok,
    ensures
        is_tree(child_step(s, top(s, root, at), index, table_flags()).0, root),
        child_step(s, top(s, root, at), index, table_flags()).0.tables[root] == s.tables[root],
        mid_present(child_step(s, top(s, root, at), index, table_flags()).0, root, at, index),
        mid(child_step(s, top(s, root, at), index, table_flags()).0, root, at, index)
            == child_step(s, top(s, root, at), index, table_flags()).1->Ok_0,
        forall|a: u64|
            s.tables.contains_key(a) && a != top(s, root, at) ==> #[trigger] child_step(
                s,
                top(s, root, at),
                index,
                table_flags(),
            ).0.tables.contains_key(a) && child_step(
                s,
                top(s, root, at),
                index,
                table_flags(),
            ).0.tables[a] == s.tables[a],
        forall|j: int|
            0 <= j < 512 && s.tables[top(s, root, at)][j].present ==> #[trigger] child_step(
                s,
                top(s, root, at),
                index,
                table_flags(),
            ).0.tables[top(s, root, at)][j] == s.tables[top(s, root, at)][j],
{
    let pml3 = top(s, root, at);
    let n = child_step(s, pml3, index, table_flags()).0;
    assert(s.tables.contains_key(pml3));
    if !s.tables[pml3][index].present {
        let frame = s.free.last();
        lemma_free_after_take(s);
        lemma_frame_round_trip(frame);
        assert(n.tables[pml3] == s.tables[pml3].update(
            index,
            installed(s.tables[pml3][index], frame, table_flags()),
        ));
        assert(n.tables[frame] == zero_table());
        assert(n.tables[root] == s.tables[root]);
        assert forall|i: int| top_present(n, root, i) == top_present(s, root, i) && top(n, root, i)
            == top(s, root, i) by {}
        assert forall|i: int|
            top_present(s, root, i) implies n.tables.contains_key(top(s, root, i))
            == s.tables.contains_key(top(s, root, i)) by {}
        assert forall|i: int, j: int| #[trigger] mid_present(n, root, i, j) implies (mid_present(
            s,
            root,
            i,
            j,
        ) && mid(n, root, i, j) == mid(s, root, i, j) && n.tables[top(n, root, i)][j]
            == s.tables[top(s, root, i)][j]) || (i == at && j == index && mid(n, root, i, j)
            == frame && !n.tables[top(n, root, i)][j].huge) by {
            assert(top_present(s, root, i));
            assert(top_present(s, root, at));
            if i != at {
                assert(top(s, root, i) != pml3);
            }
        }
        assert(mid_present(n, root, at, index));
        assert forall|i: int, j: int| #[trigger] mid_present(n, root, i, j) implies !n.tables[top(
            n,
            root,
            i,
        )][j].huge && mid(n, root, i, j) != root && !n.free.contains(mid(n, root, i, j)) by {
            if mid_present(s, root, i, j) {
            }
        }
        assert forall|i: int, j: int, k: int|
            #[trigger] mid_present(n, root, i, j) && #[trigger] top_present(
                n,
                root,
                k,
            ) implies mid(n, root, i, j) != top(n, root, k) by {
            assert(top_present(s, root, k));
            if mid_present(s, root, i, j) {
            }
        }
        assert forall|i: int, j: int, k: int, l: int|
            #[trigger] mid_present(n, root, i, j) && #[trigger] mid_present(n, root, k, l) && (i
                != k || j != l) implies mid(n, root, i, j) != mid(n, root, k, l) by {
            if mid_present(s, root, i, j) {
            }
            if mid_present(s, root, k, l) {
            }
        }
        assert forall|i: int| #[trigger] top_present(n, root, i) implies top(n, root, i) != root
            && !n.free.contains(top(n, root, i)) by {
            assert(top_present(s, root, i));
        }
        assert forall|i: int, k: int|
            #[trigger] top_present(n, root, i) && #[trigger] top_present(n, root, k) && i
                != k implies top(n, root, i) != top(n, root, k) by {
            assert(top_present(s, root, i));
            assert(top_present(s, root, k));
        }
    } else {
        assert(mid_present(s, root, at, index));
    }
}

/// Writing a leaf into a table of the second level keeps the tree.
proof fn lemma_leaf_keeps_tree(s: TablesView, root: u64, at: int, index: int, slot: int, leaf: EntryView)
    requires
        s.wf(),
        is_tree(s, root),
        mid_present(s, root, at, index),
        s.tables.contains_key(mid(s, root, at, index)),
        0 <= slot < 512,
    ensures
        is_tree(
            TablesView {
                tables: s.tables.insert(
                    mid(s, root, at, index),
                    s.tables[mid(s, root, at, index)].update(slot, leaf),
                ),
                free: s.free,
            },
            root,
        ),
        (TablesView {
            tables: s.tables.insert(
                mid(s, root, at, index),
                s.tables[mid(s, root, at, index)].update(slot, leaf),
            ),
            free: s.free,
        }).wf(),
{
    let pml2 = mid(s, root, at, index);
    let n = TablesView { tables: s.tables.insert(pml2, s.tables[pml2].update(slot, leaf)), free: s.free };
    assert(pml2 != root);
    assert(n.tables[root] == s.tables[root]);
    assert forall|i: int| top_present(n, root, i) == top_present(s, root, i) && top(n, root, i)
        == top(s, root, i) by {}
    assert forall|i: int| #[trigger] top_present(s, root, i) implies top(s, root, i) != pml2 by {}
    assert forall|i: int, j: int|
        mid_present(n, root, i, j) == mid_present(s, root, i, j) && (mid_present(s, root, i, j)
            ==> mid(n, root, i, j) == mid(s, root, i, j) && n.tables[top(n, root, i)][j]
            == s.tables[top(s, root, i)][j]) by {
        if top_present(s, root, i) {
            assert(top(s, root, i) != pml2);
        }
    }
    assert forall|i: int, j: int| #[trigger] mid_present(n, root, i, j) implies !n.tables[top(
        n,
        root,
        i,
    )][j].huge && mid(n, root, i, j) != root && !n.free.contains(mid(n, root, i, j)) by {
        assert(mid_present(s, root, i, j));
    }
    assert forall|i: int, j: int, k: int|
        #[trigger] mid_present(n, root, i, j) && #[trigger] top_present(n, root, k) implies mid(
            n,
            root,
            i,
            j,
        ) != top(n, root, k) by {
        assert(mid_present(s, root, i, j));
        assert(top_present(s, root, k));
    }
    assert forall|i: int, j: int, k: int, l: int|
        #[trigger] mid_present(n, root, i, j) && #[trigger] mid_present(n, root, k, l) && (i != k
            || j != l) implies mid(n, root, i, j) != mid(n, root, k, l) by {
        assert(mid_present(s, root, i, j));
        assert(mid_present(s, root, k, l));
    }
    assert forall|i: int| #[trigger] top_present(n, root, i) implies top(n, root, i) != root
        && !n.free.contains(top(n, root, i)) by {
        assert(top_present(s, root, i));
    }
    assert forall|i: int, k: int|
        #[trigger] top_present(n, root, i) && #[trigger] top_present(n, root, k) && i
            != k implies top(n, root, i) != top(n, root, k) by {
        assert(top_present(s, root, i));
        assert(top_present(s, root, k));
    }
}

/// Whether two virtual addresses lie in the same huge page as far as the
/// tables tell them apart: they share all three indices.
pub open spec fn same_page(a: u64, b: u64) -> bool {
    index4(a) == index4(b) && index3(a) == index3(b) && index2(a) == index2(b)
}

/// In a tree, mapping a huge page makes every address of the page resolve
/// into the frame it was mapped to, and takes nothing away: what resolved
/// before in another page resolves as before.
pub proof fn lemma_map_page_in_tree(s: TablesView, root: u64, va: u64, pa: u64)
    requires
        s.wf(),
        is_tree(s, root),
        pa % 0x20_0000 == 0,
        pa < 0x10_0000_0000_0000,
        map_page(s, root, va, pa).1 is Ok,
    ensures
        map_page(s, root, va, pa).0.wf(),
        is_tree(map_page(s, root, va, pa).0, root),
        forall|a: u64|
            same_page(a, va) ==> #[trigger] resolve(map_page(s, root, va, pa).0, root, a) == Some(
                (pa + a % 0x20_0000) as u64,
            ),
        forall|a: u64|
            !same_page(a, va) && resolve(s, root, a) is Some ==> #[trigger] resolve(
                map_page(s, root, va, pa).0,
                root,
                a,
            ) == resolve(s, root, a),
{
    let flags = table_flags();
    let i4 = index4(va);
    let i3 = index3(va);
    let i2 = index2(va);
    let first = child_step(s, root, i4, flags);
    let s1 = first.0;
    let pml3 = first.1->Ok_0;
    lemma_child_step_wf(s, root, i4, flags);
    lemma_top_step_keeps_tree(s, root, i4);
    assert(pml3 == top(s1, root, i4));
    let second = child_step(s1, pml3, i3, flags);
    let s2 = second.0;
    let pml2 = second.1->Ok_0;
    lemma_child_step_wf(s1, pml3, i3, flags);
    lemma_mid_step_keeps_tree(s1, root, i4, i3);
    assert(pml2 == mid(s2, root, i4, i3));
    assert(s2.tables.contains_key(pml2));
    let n = map_page(s, root, va, pa).0;
    lemma_leaf_keeps_tree(s2, root, i4, i3, i2, huge_leaf(pa));
    assert(top_present(s2, root, i4));
    assert(top(s2, root, i4) == pml3);
    assert(pml2 != root);
    assert(pml2 != pml3);
    assert(n.tables[root] == s2.tables[root]);
    assert(n.tables[pml3] == s2.tables[pml3]);
    assert((pa / 0x1000) * 0x1000 == pa);
    assert(child_of(huge_leaf(pa)) == pa);
    assert forall|a: u64| same_page(a, va) implies #[trigger] resolve(n, root, a) == Some(
        (pa + a % 0x20_0000) as u64,
    ) by {
        assert(n.tables[pml2][index2(a)] == huge_leaf(pa));
    }
    assert forall|a: u64| !same_page(a, va) && resolve(s, root, a) is Some implies #[trigger] resolve(
        n,
        root,
        a,
    ) == resolve(s, root, a) by {
        let o4 = index4(a);
        let o3 = index3(a);
        let o2 = index2(a);
        assert(top_present(s, root, o4));
        assert(mid_present(s, root, o4, o3));
        let t3 = top(s, root, o4);
        let t2 = mid(s, root, o4, o3);
        assert(t2 != root);
        assert(t3 != root);
        assert(t2 != t3);
        // after the first step
        assert(mid_present(s1, root, o4, o3));
        assert(top(s1, root, o4) == t3);
        assert(s1.tables[t3] == s.tables[t3]);
        assert(s1.tables[t2] == s.tables[t2]);
        assert(s1.tables[root][o4] == s.tables[root][o4]);
        // after the second step
        assert(top_present(s1, root, o4));
        assert(top_present(s1, root, i4));
        assert(mid(s1, root, o4, o3) == t2);
        assert(t2 != pml3);
        assert(s2.tables[t2] == s1.tables[t2]);
        assert(s2.tables[root] == s1.tables[root]);
        assert(s2.tables.contains_key(t3));
        assert(s2.tables[t3][o3] == s1.tables[t3][o3]);
        assert(mid_present(s2, root, o4, o3));
        assert(mid(s2, root, o4, o3) == t2);
        // after the leaf is written
        assert(top_present(s2, root, o4));
        assert(t3 != pml2);
        assert(n.tables[t3] == s2.tables[t3]);
        if t2 == pml2 {
            assert(o4 == i4 && o3 == i3);
            assert(o2 != i2);
            assert(n.tables[t2][o2] == s2.tables[t2][o2]);
        } else {
            assert(n.tables[t2] == s2.tables[t2]);
        }
    }
}

/// Addresses with the same three indices have the same page number up to
/// its lowest 27 bits, and addresses of one page have the same indices.
proof fn lemma_page_numbers(a: u64, b: u64)
    by (bit_vector)
    ensures
        ((a / 0x80_0000_0000) % 512 == (b / 0x80_0000_0000) % 512 && (a / 0x4000_0000) % 512 == (b
            / 0x4000_0000) % 512 && (a / 0x20_0000) % 512 == (b / 0x20_0000) % 512) ==> (a
            / 0x20_0000) % 0x800_0000 == (b / 0x20_0000) % 0x800_0000,
        a / 0x20_0000 == b / 0x20_0000 ==> ((a / 0x80_0000_0000) % 512 == (b / 0x80_0000_0000)
            % 512 && (a / 0x4000_0000) % 512 == (b / 0x4000_0000) % 512 && (a / 0x20_0000) % 512
            == (b / 0x20_0000) % 512),
{
}

/// Virtual address of the `k`-th huge page of a run that starts at `virt`.
pub open spec fn page_at(virt: u64, k: nat) -> u64 {
    (virt + 0x20_0000 * k) as u64
}

/// Whether `a` lies in none of the `count` huge pages from `virt` upwards,
/// as far as the tables tell addresses apart.
pub open spec fn outside_run(a: u64, virt: u64, count: nat) -> bool {
    forall|k: nat| k < count ==> !#[trigger] same_page(a, page_at(virt, k))
}

/// An address of a run lies in the last page of the run or in none that
/// shares the last page's indices.
proof fn lemma_last_page_of_run(a: u64, virt: u64, count: nat)
    requires
        virt % 0x20_0000 == 0,
        0 < count <= 0x800_0000,
        virt + 0x20_0000 * count <= 0x1_0000_0000_0000_0000,
        virt <= a < virt + 0x20_0000 * count,
    ensures
        a >= page_at(virt, (count - 1) as nat) ==> same_page(a, page_at(virt, (count - 1) as nat))
            && a % 0x20_0000 == a - page_at(virt, (count - 1) as nat),
        a < page_at(virt, (count - 1) as nat) ==> !same_page(
            a,
            page_at(virt, (count - 1) as nat),
        ),
{
    let va = page_at(virt, (count - 1) as nat);
    lemma_page_numbers(a, va);
    if a >= va {
        assert(a / 0x20_0000 == va / 0x20_0000);
    } else {
        assert(virt / 0x20_0000 <= a / 0x20_0000 < va / 0x20_0000);
        assert(va / 0x20_0000 < virt / 0x20_0000 + 0x800_0000);
        assert((a / 0x20_0000) % 0x800_0000 != (va / 0x20_0000) % 0x800_0000);
    }
}

/// In a tree, a run of huge pages that was mapped resolves, address by
/// address, to the physical run it was mapped to; and what resolved before
/// outside the run resolves as before.
pub proof fn lemma_map_pages_in_tree(s: TablesView, root: u64, virt: u64, phys: u64, count: nat)
    requires
        s.wf(),
        is_tree(s, root),
        virt % 0x20_0000 == 0,
        phys % 0x20_0000 == 0,
        count <= 0x800_0000,
        virt + 0x20_0000 * count <= 0x1_0000_0000_0000_0000,
        phys + 0x20_0000 * count <= 0x10_0000_0000_0000,
        map_pages(s, root, virt, phys, count).1 is Ok,
    ensures
        map_pages(s, root, virt, phys, count).0.wf(),
        is_tree(map_pages(s, root, virt, phys, count).0, root),
        forall|a: u64|
            virt <= a < virt + 0x20_0000 * count ==> #[trigger] resolve(
                map_pages(s, root, virt, phys, count).0,
                root,
                a,
            ) == Some((phys + (a - virt)) as u64),
        forall|a: u64|
            outside_run(a, virt, count) && resolve(s, root, a) is Some ==> #[trigger] resolve(
                map_pages(s, root, virt, phys, count).0,
                root,
                a,
            ) == resolve(s, root, a),
    decreases count,
{
    if count > 0 {
        let last = (count - 1) as nat;
        let before = map_pages(s, root, virt, phys, last).0;
        let va = (virt + 0x20_0000 * last) as u64;
        let pa = (phys + 0x20_0000 * last) as u64;
        let n = map_pages(s, root, virt, phys, count).0;
        lemma_map_pages_in_tree(s, root, virt, phys, last);
        assert(n == map_page(before, root, va, pa).0);
        lemma_map_page_in_tree(before, root, va, pa);
        assert(va == page_at(virt, last));
        assert forall|a: u64| virt <= a < virt + 0x20_0000 * count implies #[trigger] resolve(
            n,
            root,
            a,
        ) == Some((phys + (a - virt)) as u64) by {
            lemma_last_page_of_run(a, virt, count);
            if a >= va {
                assert(resolve(n, root, a) == Some((pa + a % 0x20_0000) as u64));
            } else {
                assert(resolve(before, root, a) == Some((phys + (a - virt)) as u64));
            }
        }
        assert forall|a: u64|
            outside_run(a, virt, count) && resolve(s, root, a) is Some implies #[trigger] resolve(
            n,
            root,
            a,
        ) == resolve(s, root, a) by {
            assert(!same_page(a, page_at(virt, last)));
            assert(outside_run(a, virt, last)) by {
                assert forall|k: nat| k < last implies !#[trigger] same_page(
                    a,
                    page_at(virt, k),
                ) by {
                    assert(k < count);
                }
            }
        }
    }
}

/// In a tree, once the higher half is mapped, the direct-map image of
/// every physical address below 4 GiB resolves to that address, and every
/// address of the kernel's window resolves to its offset from the kernel's
/// base.
pub proof fn lemma_higher_half_resolves(s: TablesView, root: u64)
    requires
        s.wf(),
        is_tree(s, root),
        map_higher_half_spec(s, root).1 is Ok,
    ensures
        map_higher_half_spec(s, root).0.wf(),
        is_tree(map_higher_half_spec(s, root).0, root),
        forall|phys: u64|
            phys < 0x1_0000_0000 ==> #[trigger] resolve(
                map_higher_half_spec(s, root).0,
                root,
                kern_va_of(phys),
            ) == Some(phys),
        forall|a: u64|
            a >= KERNEL_VIRT_OFFSET ==> #[trigger] resolve(
                map_higher_half_spec(s, root).0,
                root,
                a,
            ) == Some((a - KERNEL_VIRT_OFFSET) as u64),
{
    let direct = map_pages(s, root, PHYS_VIRT_OFFSET, 0, DIRECT_MAP_PAGES as nat);
    lemma_map_pages_in_tree(s, root, PHYS_VIRT_OFFSET, 0, DIRECT_MAP_PAGES as nat);
    lemma_map_pages_in_tree(direct.0, root, KERNEL_VIRT_OFFSET, 0, KERNEL_WINDOW_PAGES as nat);
    let n = map_higher_half_spec(s, root).0;
    assert forall|phys: u64| phys < 0x1_0000_0000 implies #[trigger] resolve(
        n,
        root,
        kern_va_of(phys),
    ) == Some(phys) by {
        let a = kern_va_of(phys);
        assert(index4(a) == 256);
        assert(resolve(direct.0, root, a) == Some(phys));
        assert(outside_run(a, KERNEL_VIRT_OFFSET, KERNEL_WINDOW_PAGES as nat)) by {
            assert forall|k: nat| k < KERNEL_WINDOW_PAGES as nat implies !#[trigger] same_page(
                a,
                page_at(KERNEL_VIRT_OFFSET, k),
            ) by {
                assert(index4(page_at(KERNEL_VIRT_OFFSET, k)) == 511);
            }
        }
    }
}

/// Whether the tables that the way to `a` leads through, as far as it is
/// laid, are tables that the builder knows.
pub open spec fn path_known(s: TablesView, root: u64, a: u64) -> bool {
    &&& top_present(s, root, index4(a)) ==> s.tables.contains_key(top(s, root, index4(a)))
    &&& mid_present(s, root, index4(a), index3(a)) ==> s.tables.contains_key(
        mid(s, root, index4(a), index3(a)),
    )
}

/// Number of tables that are missing on the way to `a`.
pub open spec fn frames_needed(s: TablesView, root: u64, a: u64) -> nat {
    if !top_present(s, root, index4(a)) {
        2
    } else if !mid_present(s, root, index4(a), index3(a)) {
        1
    } else {
        0
    }
}

/// In a tree, a huge page whose way leads through known tables is mapped
/// as soon as there is a free frame for each table that is missing on the
/// way, and exactly those frames are used. Afterwards no table is missing
/// on the way to the page, and none has gone missing elsewhere.
pub proof fn lemma_map_page_succeeds(s: TablesView, root: u64, va: u64, pa: u64)
    requires
        s.wf(),
        is_tree(s, root),
        path_known(s, root, va),
        s.free.len() >= frames_needed(s, root, va),
    ensures
        map_page(s, root, va, pa).1 is Ok,
        map_page(s, root, va, pa).0.free.len() == s.free.len() - frames_needed(s, root, va),
        frames_needed(map_page(s, root, va, pa).0, root, va) == 0,
        forall|b: u64|
            path_known(s, root, b) ==> #[trigger] path_known(map_page(s, root, va, pa).0, root, b),
        forall|b: u64| #[trigger]
            frames_needed(map_page(s, root, va, pa).0, root, b) <= frames_needed(s, root, b),
        forall|b: u64|
            index4(b) == index4(va) ==> #[trigger] frames_needed(
                map_page(s, root, va, pa).0,
                root,
                b,
            ) <= 1,
        forall|b: u64|
            index4(b) == index4(va) && index3(b) == index3(va) ==> #[trigger] frames_needed(
                map_page(s, root, va, pa).0,
                root,
                b,
            ) == 0,
{
    let flags = table_flags();
    let i4 = index4(va);
    let i3 = index3(va);
    let first = child_step(s, root, i4, flags);
    let s1 = first.0;
    if !s.tables[root][i4].present {
        lemma_free_after_take(s);
        lemma_frame_round_trip(s.free.last());
        assert(s1.tables[s.free.last()] == zero_table());
    } else {
        assert(top_present(s, root, i4));
    }
    assert(first.1 is Ok);
    let pml3 = first.1->Ok_0;
    lemma_child_step_wf(s, root, i4, flags);
    lemma_top_step_keeps_tree(s, root, i4);
    assert(pml3 == top(s1, root, i4));
    assert(s1.tables.contains_key(pml3));
    assert(top_present(s, root, i4) ==> s1 == s);
    assert(!top_present(s, root, i4) ==> !s1.tables[pml3][i3].present && s1.free.len()
        == s.free.len() - 1);
    let second = child_step(s1, pml3, i3, flags);
    let s2 = second.0;
    if !s1.tables[pml3][i3].present {
        lemma_free_after_take(s1);
        lemma_frame_round_trip(s1.free.last());
    } else {
        assert(mid_present(s, root, i4, i3));
    }
    assert(second.1 is Ok);
    let pml2 = second.1->Ok_0;
    lemma_child_step_wf(s1, pml3, i3, flags);
    lemma_mid_step_keeps_tree(s1, root, i4, i3);
    assert(pml2 == mid(s2, root, i4, i3));
    assert(s2.tables.contains_key(pml2));
    let n = map_page(s, root, va, pa).0;
    assert(n.free == s2.free);
    assert(top_present(s2, root, i4));
    assert(top(s2, root, i4) == pml3);
    assert(pml2 != root);
    assert(pml2 != pml3);
    assert(n.tables[root] == s2.tables[root]);
    assert(n.tables[pml3] == s2.tables[pml3]);
    assert(top_present(n, root, i4) && top(n, root, i4) == pml3);
    assert(mid_present(n, root, i4, i3) && mid(n, root, i4, i3) == pml2);
    assert forall|b: u64|
        top_present(s, root, index4(b)) && s.tables.contains_key(
            top(s, root, index4(b)),
        ) implies top_present(n, root, index4(b)) && top(n, root, index4(b)) == top(
        s,
        root,
        index4(b),
    ) && n.tables.contains_key(top(s, root, index4(b))) && (mid_present(
        s,
        root,
        index4(b),
        index3(b),
    ) ==> mid_present(n, root, index4(b), index3(b)) && mid(n, root, index4(b), index3(b)) == mid(
        s,
        root,
        index4(b),
        index3(b),
    )) by {
        let b4 = index4(b);
        let b3 = index3(b);
        let t3 = top(s, root, b4);
        assert(s1.tables[root][b4] == s.tables[root][b4]);
        assert(t3 != root);
        assert(s1.tables.contains_key(t3) && s1.tables[t3] == s.tables[t3]);
        assert(top_present(s1, root, b4));
        assert(top_present(s1, root, i4));
        assert(s2.tables[root] == s1.tables[root]);
        assert(s2.tables.contains_key(t3));
        assert(top_present(s2, root, b4));
        assert(t3 != pml2);
        assert(n.tables[t3] == s2.tables[t3]);
        if mid_present(s, root, b4, b3) {
            assert(mid_present(s1, root, b4, b3));
            assert(s2.tables[t3][b3] == s1.tables[t3][b3]);
        }
    }
    assert forall|b: u64| path_known(s, root, b) implies #[trigger] path_known(n, root, b) by {
        let b4 = index4(b);
        let b3 = index3(b);
        if top_present(s, root, b4) {
            let t3 = top(s, root, b4);
            assert(s.tables.contains_key(t3));
            if mid_present(n, root, b4, b3) {
                if mid_present(s, root, b4, b3) {
                    let t2 = mid(s, root, b4, b3);
                    assert(s.tables.contains_key(t2));
                    assert(t2 != root);
                    assert(s1.tables.contains_key(t2));
                    assert(top_present(s1, root, b4));
                    assert(top_present(s1, root, i4));
                    assert(mid_present(s1, root, b4, b3));
                    assert(mid(s1, root, b4, b3) == t2);
                    assert(t2 != pml3);
                    assert(s2.tables.contains_key(t2));
                } else {
                    assert(t3 != root);
                    assert(s1.tables[t3] == s.tables[t3]);
                    assert(top_present(s1, root, b4));
                    assert(top_present(s1, root, i4));
                    if t3 != pml3 {
                        assert(s2.tables[t3] == s1.tables[t3]);
                    }
                    assert(b4 == i4 && b3 == i3);
                }
            }
        } else {
            if top_present(n, root, b4) {
                assert(n.tables[root][b4] == s1.tables[root][b4]);
                assert(b4 == i4);
                if mid_present(n, root, b4, b3) {
                    assert(s2.tables[pml3][b3].present);
                    assert(b3 == i3);
                }
            }
        }
    }
    assert forall|b: u64| #[trigger] frames_needed(n, root, b) <= frames_needed(s, root, b) by {
        let b4 = index4(b);
        let b3 = index3(b);
        if top_present(s, root, b4) {
            assert(s1.tables[root][b4] == s.tables[root][b4]);
            assert(top_present(n, root, b4));
            if mid_present(s, root, b4, b3) {
                assert(s.tables.contains_key(top(s, root, b4)));
            }
        }
    }
    assert forall|b: u64| index4(b) == index4(va) implies #[trigger] frames_needed(n, root, b)
        <= 1 by {}
    assert forall|b: u64|
        index4(b) == index4(va) && index3(b) == index3(va) implies #[trigger] frames_needed(
        n,
        root,
        b,
    ) == 0 by {}
}

/// Number of tables of the third and of the second level that the `count`
/// huge pages from `virt` upwards lie under.
pub open spec fn tables_for(virt: u64, count: nat) -> nat {
    if count == 0 {
        0
    } else {
        let first = virt as int / 0x20_0000;
        let last = first + count - 1;
        ((last / 0x4_0000 - first / 0x4_0000 + 1) + (last / 512 - first / 512 + 1)) as nat
    }
}

/// Pages under one table of the second level share two indices, pages
/// under one table of the third level share one.
proof fn lemma_page_tables(a: u64, b: u64)
    by (bit_vector)
    ensures
        (a / 0x20_0000) / 512 == (b / 0x20_0000) / 512 ==> (a / 0x80_0000_0000) % 512 == (b
            / 0x80_0000_0000) % 512 && (a / 0x4000_0000) % 512 == (b / 0x4000_0000) % 512,
        (a / 0x20_0000) / 0x4_0000 == (b / 0x20_0000) / 0x4_0000 ==> (a / 0x80_0000_0000) % 512
            == (b / 0x80_0000_0000) % 512,
{
}

/// One page more lies under at most two tables more, and under none more
/// where it shares its indices with the page before.
proof fn lemma_next_page_tables(virt: u64, k: nat)
    requires
        virt % 0x20_0000 == 0,
        0 < k,
        virt + 0x20_0000 * (k + 1) <= 0x1_0000_0000_0000_0000,
    ensures
        tables_for(virt, k + 1) >= tables_for(virt, k),
        tables_for(virt, k + 1) == tables_for(virt, k) ==> index4(page_at(virt, k)) == index4(
            page_at(virt, (k - 1) as nat),
        ) && index3(page_at(virt, k)) == index3(page_at(virt, (k - 1) as nat)),
        tables_for(virt, k + 1) == tables_for(virt, k) + 1 ==> index4(page_at(virt, k)) == index4(
            page_at(virt, (k - 1) as nat),
        ),
        tables_for(virt, k + 1) <= tables_for(virt, k) + 2,
{
    let a = page_at(virt, k);
    let b = page_at(virt, (k - 1) as nat);
    lemma_page_tables(a, b);
    let first = virt as int / 0x20_0000;
    assert(a as int / 0x20_0000 == first + k);
    assert(b as int / 0x20_0000 == first + k - 1);
}

/// In a tree, a run of huge pages whose ways lead through known tables is
/// mapped as soon as there is a free frame for each table the run lies
/// under, and no more frames than those are used.
pub proof fn lemma_map_pages_succeeds(s: TablesView, root: u64, virt: u64, phys: u64, count: nat)
    requires
        s.wf(),
        is_tree(s, root),
        virt % 0x20_0000 == 0,
        phys % 0x20_0000 == 0,
        count <= 0x800_0000,
        virt + 0x20_0000 * count <= 0x1_0000_0000_0000_0000,
        phys + 0x20_0000 * count <= 0x10_0000_0000_0000,
        forall|k: nat| k < count ==> path_known(s, root, #[trigger] page_at(virt, k)),
        s.free.len() >= tables_for(virt, count),
    ensures
        map_pages(s, root, virt, phys, count).1 is Ok,
        map_pages(s, root, virt, phys, count).0.free.len() >= s.free.len() - tables_for(
            virt,
            count,
        ),
        map_pages(s, root, virt, phys, count).0.free.len() <= s.free.len(),
        forall|b: u64|
            path_known(s, root, b) ==> #[trigger] path_known(
                map_pages(s, root, virt, phys, count).0,
                root,
                b,
            ),
        forall|b: u64| #[trigger]
            frames_needed(map_pages(s, root, virt, phys, count).0, root, b) <= frames_needed(
                s,
                root,
                b,
            ),
        count > 0 ==> forall|b: u64|
            index4(b) == index4(page_at(virt, (count - 1) as nat)) ==> #[trigger] frames_needed(
                map_pages(s, root, virt, phys, count).0,
                root,
                b,
            ) <= 1,
        count > 0 ==> forall|b: u64|
            index4(b) == index4(page_at(virt, (count - 1) as nat)) && index3(b) == index3(
                page_at(virt, (count - 1) as nat),
            ) ==> #[trigger] frames_needed(map_pages(s, root, virt, phys, count).0, root, b) == 0,
    decreases count,
{
    if count > 0 {
        let last = (count - 1) as nat;
        let va = page_at(virt, last);
        let pa = (phys + 0x20_0000 * last) as u64;
        assert(tables_for(virt, count) >= tables_for(virt, last)) by {
            if last > 0 {
                lemma_next_page_tables(virt, last);
            }
        }
        assert forall|k: nat| k < last implies path_known(s, root, #[trigger] page_at(virt, k)) by {
            assert(k < count);
        }
        lemma_map_pages_succeeds(s, root, virt, phys, last);
        let before = map_pages(s, root, virt, phys, last).0;
        lemma_map_pages_wf(s, root, virt, phys, last);
        lemma_map_pages_in_tree(s, root, virt, phys, last);
        assert(path_known(s, root, page_at(virt, last)));
        assert(path_known(before, root, va));
        assert(frames_needed(before, root, va) <= tables_for(virt, count) - tables_for(
            virt,
            last,
        )) by {
            if last > 0 {
                lemma_next_page_tables(virt, last);
            }
        }
        lemma_map_page_succeeds(before, root, va, pa);
    }
}

/// In a tree whose root has nothing yet in the two entries of the higher
/// half, eight free frames are enough to map the higher half.
pub proof fn lemma_higher_half_succeeds(s: TablesView, root: u64)
    requires
        s.wf(),
        is_tree(s, root),
        !top_present(s, root, 256),
        !top_present(s, root, 511),
        s.free.len() >= 8,
    ensures
        map_higher_half_spec(s, root).1 is Ok,
        s.free.len() - 8 <= map_higher_half_spec(s, root).0.free.len() <= s.free.len(),
{
    assert forall|k: nat| k < DIRECT_MAP_PAGES as nat implies path_known(
        s,
        root,
        #[trigger] page_at(PHYS_VIRT_OFFSET, k),
    ) by {
        assert(index4(page_at(PHYS_VIRT_OFFSET, k)) == 256);
    }
    assert forall|k: nat| k < KERNEL_WINDOW_PAGES as nat implies path_known(
        s,
        root,
        #[trigger] page_at(KERNEL_VIRT_OFFSET, k),
    ) by {
        assert(index4(page_at(KERNEL_VIRT_OFFSET, k)) == 511);
    }
    assert(tables_for(PHYS_VIRT_OFFSET, DIRECT_MAP_PAGES as nat) == 5);
    assert(tables_for(KERNEL_VIRT_OFFSET, KERNEL_WINDOW_PAGES as nat) == 3);
    lemma_map_pages_succeeds(s, root, PHYS_VIRT_OFFSET, 0, DIRECT_MAP_PAGES as nat);
    let direct = map_pages(s, root, PHYS_VIRT_OFFSET, 0, DIRECT_MAP_PAGES as nat);
    lemma_map_pages_wf(s, root, PHYS_VIRT_OFFSET, 0, DIRECT_MAP_PAGES as nat);
    lemma_map_pages_in_tree(s, root, PHYS_VIRT_OFFSET, 0, DIRECT_MAP_PAGES as nat);
    lemma_map_pages_succeeds(direct.0, root, KERNEL_VIRT_OFFSET, 0, KERNEL_WINDOW_PAGES as nat);
}

} // verus!
