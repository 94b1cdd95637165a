//! The tessellation pipeline: walk the arena depth-first, ask each widget for
//! its geometry anchored at its parent, and concatenate vertices, absolute
//! indices and polygon records with a running vertex offset. Paint order is
//! the pre-order of the walk: a widget precedes its descendants, and siblings
//! come in child-list order.

use vstd::prelude::*;
use crate::guibase::GUIBase;
use crate::guibase::GWidget;
use crate::guibase::has_widget_in;
use crate::guibase::linked_to;
use crate::guibase::widget_idx_of;
use crate::guibase::widget_children_linked;
use crate::guibase::win_children_linked;
use crate::guibutton::lemma_arc_off_range;
use crate::guiposition::GUIPosition;
use crate::guitraits::MAX_VERTEX_INDEX;
use crate::guitraits::Widget;
use crate::vertices::LogicalVertex;
use crate::vertices::Polygon;

verus! {

/// The vertices covered by the first `j` polygon records: the sum of their
/// range extents. Every vertex of a tessellation pass belongs to exactly one
/// record, so this is also the vertex count accumulated before record `j`
/// was emitted.
pub open spec fn extent_sum(ps: Seq<Polygon>, j: int) -> int
    decreases j,
{
    if j <= 0 {
        0
    } else {
        extent_sum(ps, j - 1) + (ps[j - 1].end_index - ps[j - 1].start_index)
    }
}

/// `extent_sum` over a concatenation, within the left part.
proof fn lemma_extent_sum_prefix(a: Seq<Polygon>, b: Seq<Polygon>, j: int)
    requires
        0 <= j <= a.len(),
    ensures
        extent_sum(a + b, j) == extent_sum(a, j),
    decreases j,
{
    if j > 0 {
        lemma_extent_sum_prefix(a, b, j - 1);
        assert((a + b)[j - 1] == a[j - 1]);
    }
}

/// `extent_sum` over a concatenation, past the left part.
proof fn lemma_extent_sum_concat(a: Seq<Polygon>, b: Seq<Polygon>, j: int)
    requires
        0 <= j <= b.len(),
    ensures
        extent_sum(a + b, a.len() + j) == extent_sum(a, a.len() as int) + extent_sum(b, j),
    decreases j,
{
    if j == 0 {
        lemma_extent_sum_prefix(a, b, a.len() as int);
    } else {
        lemma_extent_sum_concat(a, b, j - 1);
        assert((a + b)[a.len() + j - 1] == b[j - 1]);
    }
}

/// Structural soundness of a tessellation chunk that numbers its vertices
/// from `off`: indices stay inside the chunk, polygon ranges are empty or
/// inside the chunk and pairwise ordered, rendered polygons are never empty,
/// the records partition the chunk's vertices in order (so a rendered
/// record's start is exactly the vertex count accumulated before its widget
/// was tessellated), and all coordinates are in range.
pub open spec fn tess_ok(
    v: Seq<LogicalVertex>,
    ix: Seq<u16>,
    ps: Seq<Polygon>,
    off: int,
) -> bool {
    &&& forall|m: int| 0 <= m < ix.len() ==> off <= #[trigger] ix[m] < off + v.len()
    &&& forall|j: int|
        0 <= j < ps.len() ==> (((#[trigger] ps[j]).start_index == ps[j].end_index
            && ps[j].end_index <= off + v.len()) || (off <= ps[j].start_index
            <= ps[j].end_index <= off + v.len()))
    &&& forall|j: int|
        0 <= j < ps.len() ==> ((#[trigger] ps[j]).rendered ==> ps[j].start_index
            < ps[j].end_index)
    &&& forall|j1: int, j2: int|
        #![trigger ps[j1], ps[j2]]
        0 <= j1 < j2 < ps.len() ==> (ps[j1].start_index == ps[j1].end_index || ps[j2].start_index
            == ps[j2].end_index || ps[j1].end_index <= ps[j2].start_index)
    &&& v.len() == extent_sum(ps, ps.len() as int)
    &&& forall|j: int|
        0 <= j < ps.len() ==> ((#[trigger] ps[j]).rendered ==> ps[j].start_index == off
            + extent_sum(ps, j))
    &&& forall|m: int| 0 <= m < v.len() ==> (#[trigger] v[m]).in_coord_range()
}

/// The geometry of the widget `id` and, after it, of its whole subtree in
/// child-list order, numbered from `off`.
pub open spec fn subtree_tess(b: GUIBase, anchor: GUIPosition, id: u128, off: int) -> (Seq<
    LogicalVertex,
>, Seq<u16>, Seq<Polygon>)
    decreases b.widgets@.len() - widget_idx_of(b.widgets@, id), 1int, 0int,
        when b.wf() && has_widget_in(b.widgets@, id)
{
    let e = b.widgets@[widget_idx_of(b.widgets@, id)];
    let t = e.widget.tess_spec(anchor, off as u16);
    let rest = children_tess(
        b,
        e.widget.spec_position(),
        e.children@,
        off + t.0.len(),
        widget_idx_of(b.widgets@, id),
    );
    (t.0 + rest.0, t.1 + rest.1, seq![t.2] + rest.2)
}

/// The geometry of the subtrees of the ids in `kids`, left to right, each
/// numbered where the previous one ended. `pi` is the index of the parent in
/// the widget table (`-1` for a window), which every child sits past.
pub open spec fn children_tess(
    b: GUIBase,
    anchor: GUIPosition,
    kids: Seq<u128>,
    off: int,
    pi: int,
) -> (Seq<LogicalVertex>, Seq<u16>, Seq<Polygon>)
    decreases b.widgets@.len() - pi, 0int, kids.len(),
        when b.wf() && -1 <= pi <= b.widgets@.len() && (forall|k: int|
            0 <= k < kids.len() ==> has_widget_in(b.widgets@, #[trigger] kids[k]) && widget_idx_of(
                b.widgets@,
                kids[k],
            ) > pi)
{
    if kids.len() == 0 {
        (Seq::empty(), Seq::empty(), Seq::empty())
    } else {
        let t = subtree_tess(b, anchor, kids[0], off);
        let rest = children_tess(b, anchor, kids.drop_first(), off + t.0.len(), pi);
        (t.0 + rest.0, t.1 + rest.1, t.2 + rest.2)
    }
}

/// The geometry of every window from `wj` on: each window's children are
/// walked depth-first, anchored at the window's position (the origin).
pub open spec fn windows_tess(b: GUIBase, wj: int, off: int) -> (Seq<LogicalVertex>, Seq<
    u16,
>, Seq<Polygon>)
    decreases b.windows@.len() - wj,
        when b.wf() && 0 <= wj <= b.windows@.len()
{
    if wj >= b.windows@.len() {
        (Seq::empty(), Seq::empty(), Seq::empty())
    } else {
        let gw = b.windows@[wj];
        let t = children_tess(b, gw.window.spec_position(), gw.children@, off, -1);
        let rest = windows_tess(b, wj + 1, off + t.0.len());
        (t.0 + rest.0, t.1 + rest.1, t.2 + rest.2)
    }
}

/// The full per-frame tessellation of the arena.
pub open spec fn spec_pipeline(b: GUIBase) -> (Seq<LogicalVertex>, Seq<u16>, Seq<Polygon>) {
    windows_tess(b, 0, 0)
}

/// What one widget's own tessellation looks like, for any widget kind.
proof fn lemma_kind_tess_shape(w: crate::guibase::WidgetKind, parent: GUIPosition, offset: u16)
    requires
        w.wf(),
        parent.bounded(),
        offset as int + w.vertex_count() <= MAX_VERTEX_INDEX as int,
    ensures
        w.tess_spec(parent, offset).0.len() == w.vertex_count(),
        0 <= w.vertex_count() <= 32,
        forall|m: int|
            0 <= m < w.tess_spec(parent, offset).1.len() ==> offset <= #[trigger] w.tess_spec(
                parent,
                offset,
            ).1[m] < offset + w.tess_spec(parent, offset).0.len(),
        w.tess_spec(parent, offset).2.widget_id == w.spec_id(),
        w.tess_spec(parent, offset).2.rendered ==> (w.tess_spec(parent, offset).2.start_index
            == offset as int && w.tess_spec(parent, offset).2.end_index == offset + w.tess_spec(
            parent,
            offset,
        ).0.len()),
        !w.tess_spec(parent, offset).2.rendered ==> w.tess_spec(parent, offset).2.start_index
            == w.tess_spec(parent, offset).2.end_index,
        w.tess_spec(parent, offset).2.start_index <= w.tess_spec(parent, offset).2.end_index
            <= offset + w.tess_spec(parent, offset).0.len(),
        w.tess_spec(parent, offset).2.end_index - w.tess_spec(parent, offset).2.start_index
            == w.tess_spec(parent, offset).0.len(),
        forall|m: int|
            0 <= m < w.tess_spec(parent, offset).0.len() ==> (#[trigger] w.tess_spec(
                parent,
                offset,
            ).0[m]).in_coord_range(),
        w.spec_position().bounded(),
{
    match w {
        crate::guibase::WidgetKind::Window(win) => {
        },
        crate::guibase::WidgetKind::Button(b) => {
            if !b.degenerate() {
                let t = b.tess_spec(parent, offset);
                let rc = b.spec_radius();
                assert(0 <= rc <= b.size.width.units as int / 2);
                assert forall|m: int| 0 <= m < t.0.len() implies (
                #[trigger] t.0[m]).in_coord_range() by {
                    assert(t.0[m] == b.vertex_at(parent, m));
                    let j = m % 8;
                    lemma_arc_off_range(rc, j);
                    lemma_arc_off_range(rc, 7 - j);
                }
                assert forall|m: int| 0 <= m < t.1.len() implies offset <= #[trigger] t.1[m]
                    < offset + t.0.len() by {
                    assert(t.1[m] == crate::guibutton::fan_index(offset, m));
                    assert(0 <= m / 3 < 30 && 0 <= m % 3 < 3);
                }
            }
        },
    }
}

/// Every child id of the widget at index `wi` names a widget further down
/// the table.
proof fn lemma_widget_children_facts(b: GUIBase, wi: int)
    requires
        b.wf(),
        0 <= wi < b.widgets@.len(),
    ensures
        forall|k: int|
            0 <= k < b.widgets@[wi].children@.len() ==> has_widget_in(
                b.widgets@,
                #[trigger] b.widgets@[wi].children@[k],
            ) && widget_idx_of(b.widgets@, b.widgets@[wi].children@[k]) > wi,
{
    let xs = b.widgets@;
    reveal(widget_children_linked);
    assert forall|k: int|
        0 <= k < xs[wi].children@.len() implies has_widget_in(
        xs,
        #[trigger] xs[wi].children@[k],
    ) && widget_idx_of(xs, xs[wi].children@[k]) > wi by {
        let ch = xs[wi].children@[k];
        assert(linked_to(xs, ch, xs[wi].widget.spec_id(), wi));
        let w = choose|w: int|
            0 <= w < xs.len() && xs[w].widget.spec_id() == ch && xs[w].parent
                == xs[wi].widget.spec_id() && w > wi;
        assert(xs[w].widget.spec_id() == ch);
        let w2 = widget_idx_of(xs, ch);
        assert(0 <= w2 < xs.len() && xs[w2].widget.spec_id() == ch);
        assert(w2 == w);
    }
}

/// Every child id of the window at index `wj` names a widget in the table.
proof fn lemma_window_children_facts(b: GUIBase, wj: int)
    requires
        b.wf(),
        0 <= wj < b.windows@.len(),
    ensures
        forall|k: int|
            0 <= k < b.windows@[wj].children@.len() ==> has_widget_in(
                b.widgets@,
                #[trigger] b.windows@[wj].children@[k],
            ) && widget_idx_of(b.widgets@, b.windows@[wj].children@[k]) > -1,
{
    let ws = b.windows@;
    let xs = b.widgets@;
    reveal(win_children_linked);
    assert forall|k: int|
        0 <= k < ws[wj].children@.len() implies has_widget_in(
        xs,
        #[trigger] ws[wj].children@[k],
    ) && widget_idx_of(xs, ws[wj].children@[k]) > -1 by {
        let ch = ws[wj].children@[k];
        assert(linked_to(xs, ch, ws[wj].window.id, -1));
        let w = choose|w: int|
            0 <= w < xs.len() && xs[w].widget.spec_id() == ch && xs[w].parent == ws[wj].window.id
                && w > -1;
        assert(xs[w].widget.spec_id() == ch);
        let w2 = widget_idx_of(xs, ch);
        assert(0 <= w2 < xs.len());
    }
}

/// Tessellate the subtrees of all ids in `child_ids`, numbering from
/// `index_offset`; `pi` is the widget-table index of their shared parent
/// (`-1` when the parent is a window).
fn make_children(
    guibase: &GUIBase,
    anchor: &GUIPosition,
    child_ids: &Vec<u128>,
    index_offset: u16,
    pi: Ghost<int>,
) -> (r: (Vec<LogicalVertex>, Vec<u16>, Vec<Polygon>))
    requires
        guibase.wf(),
        anchor.bounded(),
        -1 <= pi@ <= guibase.widgets@.len(),
        forall|k: int|
            0 <= k < child_ids@.len() ==> has_widget_in(
                guibase.widgets@,
                #[trigger] child_ids@[k],
            ) && widget_idx_of(guibase.widgets@, child_ids@[k]) > pi@,
        index_offset as int + children_tess(
            *guibase,
            *anchor,
            child_ids@,
            index_offset as int,
            pi@,
        ).0.len() <= MAX_VERTEX_INDEX as int,
    ensures
        (r.0@, r.1@, r.2@) == children_tess(
            *guibase,
            *anchor,
            child_ids@,
            index_offset as int,
            pi@,
        ),
        tess_ok(r.0@, r.1@, r.2@, index_offset as int),
    decreases guibase.widgets@.len() - pi@, 0int, 0int,
{
    let ghost full = children_tess(*guibase, *anchor, child_ids@, index_offset as int, pi@);
    let mut all_vertices: Vec<LogicalVertex> = Vec::new();
    let mut all_indices: Vec<u16> = Vec::new();
    let mut all_polygons: Vec<Polygon> = Vec::new();
    proof {
        assert(child_ids@.skip(0) =~= child_ids@);
        assert(Seq::<LogicalVertex>::empty() + full.0 =~= full.0);
        assert(Seq::<u16>::empty() + full.1 =~= full.1);
        assert(Seq::<Polygon>::empty() + full.2 =~= full.2);
    }
    let mut k: usize = 0;
    while k < child_ids.len()
        invariant
            guibase.wf(),
            anchor.bounded(),
            -1 <= pi@ <= guibase.widgets@.len(),
            forall|k2: int|
                0 <= k2 < child_ids@.len() ==> has_widget_in(
                    guibase.widgets@,
                    #[trigger] child_ids@[k2],
                ) && widget_idx_of(guibase.widgets@, child_ids@[k2]) > pi@,
            full == children_tess(*guibase, *anchor, child_ids@, index_offset as int, pi@),
            index_offset as int + full.0.len() <= MAX_VERTEX_INDEX as int,
            k <= child_ids@.len(),
            full.0 == all_vertices@ + children_tess(
                *guibase,
                *anchor,
                child_ids@.skip(k as int),
                index_offset as int + all_vertices@.len(),
                pi@,
            ).0,
            full.1 == all_indices@ + children_tess(
                *guibase,
                *anchor,
                child_ids@.skip(k as int),
                index_offset as int + all_vertices@.len(),
                pi@,
            ).1,
            full.2 == all_polygons@ + children_tess(
                *guibase,
                *anchor,
                child_ids@.skip(k as int),
                index_offset as int + all_vertices@.len(),
                pi@,
            ).2,
            tess_ok(all_vertices@, all_indices@, all_polygons@, index_offset as int),
        decreases child_ids@.len() - k,
    {
        let ghost off_k = index_offset as int + all_vertices@.len();
        let ghost tail = child_ids@.skip(k as int);
        let ghost rest = children_tess(*guibase, *anchor, tail, off_k, pi@);
        proof {
            assert(tail.len() > 0);
            assert(tail[0] == child_ids@[k as int]);
            assert(tail.drop_first() =~= child_ids@.skip(k as int + 1));
        }
        let ghost sub = subtree_tess(*guibase, *anchor, child_ids@[k as int], off_k);
        proof {
            assert(rest.0 == sub.0 + children_tess(
                *guibase,
                *anchor,
                child_ids@.skip(k as int + 1),
                off_k + sub.0.len(),
                pi@,
            ).0);
            assert(full.0.len() == all_vertices@.len() + rest.0.len());
            assert(sub.0.len() <= rest.0.len());
        }
        let cid: u128 = child_ids[k];
        let off_u: u16 = index_offset + (all_vertices.len() as u16);
        let (mut vv, mut ii, mut pp) = make_child(guibase, anchor, &cid, off_u);
        let ghost old_v = all_vertices@;
        let ghost old_ix = all_indices@;
        let ghost old_p = all_polygons@;
        all_vertices.append(&mut vv);
        all_indices.append(&mut ii);
        all_polygons.append(&mut pp);
        proof {
            let rest2 = children_tess(
                *guibase,
                *anchor,
                child_ids@.skip(k as int + 1),
                off_k + sub.0.len(),
                pi@,
            );
            assert(full.0 =~= all_vertices@ + rest2.0);
            assert(full.1 =~= all_indices@ + rest2.1);
            assert(full.2 =~= all_polygons@ + rest2.2);
            assert(tess_ok(all_vertices@, all_indices@, all_polygons@, index_offset as int)) by {
                assert(all_vertices@ == old_v + sub.0);
                assert(all_indices@ == old_ix + sub.1);
                assert(all_polygons@ == old_p + sub.2);
                lemma_extent_sum_concat(old_p, sub.2, sub.2.len() as int);
                assert(all_vertices@.len() == extent_sum(
                    all_polygons@,
                    all_polygons@.len() as int,
                ));
                assert forall|j: int|
                    0 <= j < all_polygons@.len() && (#[trigger] all_polygons@[j]).rendered implies
                    all_polygons@[j].start_index == index_offset as int + extent_sum(
                    all_polygons@,
                    j,
                ) by {
                    if j < old_p.len() {
                        assert(all_polygons@[j] == old_p[j]);
                        lemma_extent_sum_prefix(old_p, sub.2, j);
                    } else {
                        assert(all_polygons@[j] == sub.2[j - old_p.len()]);
                        lemma_extent_sum_concat(old_p, sub.2, j - old_p.len());
                    }
                }
                assert forall|m: int|
                    0 <= m < all_indices@.len() implies index_offset as int
                    <= #[trigger] all_indices@[m] < index_offset as int
                    + all_vertices@.len() by {
                    if m < old_ix.len() {
                        assert(all_indices@[m] == old_ix[m]);
                    } else {
                        assert(all_indices@[m] == sub.1[m - old_ix.len()]);
                    }
                }
                assert forall|m: int|
                    0 <= m < all_vertices@.len() implies (
                #[trigger] all_vertices@[m]).in_coord_range() by {
                    if m < old_v.len() {
                        assert(all_vertices@[m] == old_v[m]);
                    } else {
                        assert(all_vertices@[m] == sub.0[m - old_v.len()]);
                    }
                }
                assert forall|j: int|
                    0 <= j < all_polygons@.len() implies ((#[trigger] all_polygons@[j]).start_index
                    == all_polygons@[j].end_index || (index_offset as int
                    <= all_polygons@[j].start_index <= all_polygons@[j].end_index
                    <= index_offset as int + all_vertices@.len())) by {
                    if j < old_p.len() {
                        assert(all_polygons@[j] == old_p[j]);
                    } else {
                        assert(all_polygons@[j] == sub.2[j - old_p.len()]);
                    }
                }
                assert forall|j: int|
                    0 <= j < all_polygons@.len() && (#[trigger] all_polygons@[j]).rendered implies
                    all_polygons@[j].start_index < all_polygons@[j].end_index by {
                    if j < old_p.len() {
                        assert(all_polygons@[j] == old_p[j]);
                    } else {
                        assert(all_polygons@[j] == sub.2[j - old_p.len()]);
                    }
                }
                assert forall|j1: int, j2: int|
                    #![trigger all_polygons@[j1], all_polygons@[j2]]
                    0 <= j1 < j2 < all_polygons@.len() implies (all_polygons@[j1].start_index
                    == all_polygons@[j1].end_index || all_polygons@[j2].start_index
                    == all_polygons@[j2].end_index || all_polygons@[j1].end_index
                    <= all_polygons@[j2].start_index) by {
                    if j2 < old_p.len() {
                        assert(all_polygons@[j1] == old_p[j1]);
                        assert(all_polygons@[j2] == old_p[j2]);
                    } else if j1 >= old_p.len() {
                        assert(all_polygons@[j1] == sub.2[j1 - old_p.len()]);
                        assert(all_polygons@[j2] == sub.2[j2 - old_p.len()]);
                    } else {
                        assert(all_polygons@[j1] == old_p[j1]);
                        assert(all_polygons@[j2] == sub.2[j2 - old_p.len()]);
                    }
                }
            }
        }
        k = k + 1;
    }
    proof {
        assert(child_ids@.skip(k as int) =~= Seq::<u128>::empty());
        let rest = children_tess(
            *guibase,
            *anchor,
            child_ids@.skip(k as int),
            index_offset as int + all_vertices@.len(),
            pi@,
        );
        assert(rest.0 =~= Seq::<LogicalVertex>::empty());
        assert(full.0 =~= all_vertices@);
        assert(full.1 =~= all_indices@);
        assert(full.2 =~= all_polygons@);
    }
    (all_vertices, all_indices, all_polygons)
}

/// Tessellate one widget and its whole subtree, numbering from
/// `index_offset`.
fn make_child(
    guibase: &GUIBase,
    parent_position: &GUIPosition,
    widget_id: &u128,
    index_offset: u16,
) -> (r: (Vec<LogicalVertex>, Vec<u16>, Vec<Polygon>))
    requires
        guibase.wf(),
        parent_position.bounded(),
        has_widget_in(guibase.widgets@, *widget_id),
        index_offset as int + subtree_tess(
            *guibase,
            *parent_position,
            *widget_id,
            index_offset as int,
        ).0.len() <= MAX_VERTEX_INDEX as int,
    ensures
        (r.0@, r.1@, r.2@) == subtree_tess(
            *guibase,
            *parent_position,
            *widget_id,
            index_offset as int,
        ),
        tess_ok(r.0@, r.1@, r.2@, index_offset as int),
    decreases guibase.widgets@.len() - widget_idx_of(guibase.widgets@, *widget_id), 1int, 0int,
{
    let ghost full = subtree_tess(*guibase, *parent_position, *widget_id, index_offset as int);
    let wi: usize = match guibase.find_widget(*widget_id) {
        Some(i) => i,
        None => {
            proof {
                assert(false);
            }
            0
        },
    };
    proof {
        let w2 = widget_idx_of(guibase.widgets@, *widget_id);
        assert(0 <= w2 < guibase.widgets@.len() && guibase.widgets@[w2].widget.spec_id()
            == *widget_id);
        assert(wi as int == w2);
    }
    let gwidget: &GWidget = &guibase.widgets[wi];
    let ghost t = gwidget.widget.tess_spec(*parent_position, index_offset);
    proof {
        lemma_widget_children_facts(*guibase, wi as int);
        lemma_kind_tess_shape(gwidget.widget, *parent_position, index_offset);
        assert(full.0 == t.0 + children_tess(
            *guibase,
            gwidget.widget.spec_position(),
            gwidget.children@,
            index_offset as int + t.0.len(),
            wi as int,
        ).0);
    }
    let (vertices, indices, polygon) = gwidget.get_widget().get_vertices_and_indices(
        parent_position,
        index_offset,
    );
    let position: GUIPosition = gwidget.get_widget().get_position();
    let child_offset: u16 = index_offset + (vertices.len() as u16);
    let (mut cv, mut cix, mut cp) = make_children(
        guibase,
        &position,
        gwidget.get_child_ids(),
        child_offset,
        Ghost(wi as int),
    );
    let mut all_vertices = vertices;
    let mut all_indices = indices;
    let mut all_polygons: Vec<Polygon> = Vec::new();
    all_polygons.push(polygon);
    all_vertices.append(&mut cv);
    all_indices.append(&mut cix);
    all_polygons.append(&mut cp);
    proof {
        let ct = children_tess(
            *guibase,
            gwidget.widget.spec_position(),
            gwidget.children@,
            index_offset as int + t.0.len(),
            wi as int,
        );
        assert(all_vertices@ =~= full.0);
        assert(all_indices@ =~= full.1);
        assert(all_polygons@ =~= full.2);
        assert(tess_ok(all_vertices@, all_indices@, all_polygons@, index_offset as int)) by {
            assert(all_polygons@ == seq![t.2] + ct.2);
            assert(extent_sum(seq![t.2], 1) == t.2.end_index - t.2.start_index) by {
                assert(seq![t.2][0] == t.2);
                assert(extent_sum(seq![t.2], 0) == 0);
            }
            lemma_extent_sum_concat(seq![t.2], ct.2, ct.2.len() as int);
            assert(all_vertices@.len() == extent_sum(all_polygons@, all_polygons@.len() as int));
            assert forall|j: int|
                0 <= j < all_polygons@.len() && (#[trigger] all_polygons@[j]).rendered implies
                all_polygons@[j].start_index == index_offset as int + extent_sum(
                all_polygons@,
                j,
            ) by {
                if j == 0 {
                    assert(all_polygons@[0] == t.2);
                    assert(extent_sum(all_polygons@, 0) == 0);
                } else {
                    assert(all_polygons@[j] == ct.2[j - 1]);
                    lemma_extent_sum_concat(seq![t.2], ct.2, j - 1);
                }
            }
            assert forall|m: int|
                0 <= m < all_indices@.len() implies index_offset as int
                <= #[trigger] all_indices@[m] < index_offset as int + all_vertices@.len() by {
                if m < t.1.len() {
                    assert(all_indices@[m] == t.1[m]);
                } else {
                    assert(all_indices@[m] == ct.1[m - t.1.len()]);
                }
            }
            assert forall|m: int|
                0 <= m < all_vertices@.len() implies (
            #[trigger] all_vertices@[m]).in_coord_range() by {
                if m < t.0.len() {
                    assert(all_vertices@[m] == t.0[m]);
                } else {
                    assert(all_vertices@[m] == ct.0[m - t.0.len()]);
                }
            }
            assert forall|j: int|
                0 <= j < all_polygons@.len() implies ((#[trigger] all_polygons@[j]).start_index
                == all_polygons@[j].end_index || (index_offset as int
                <= all_polygons@[j].start_index <= all_polygons@[j].end_index
                <= index_offset as int + all_vertices@.len())) && (all_polygons@[j].rendered
                ==> all_polygons@[j].start_index < all_polygons@[j].end_index) by {
                if j == 0 {
                    assert(all_polygons@[0] == t.2);
                } else {
                    assert(all_polygons@[j] == ct.2[j - 1]);
                }
            }
            assert forall|j1: int, j2: int|
                #![trigger all_polygons@[j1], all_polygons@[j2]]
                0 <= j1 < j2 < all_polygons@.len() implies (all_polygons@[j1].start_index
                == all_polygons@[j1].end_index || all_polygons@[j2].start_index
                == all_polygons@[j2].end_index || all_polygons@[j1].end_index
                <= all_polygons@[j2].start_index) by {
                if j1 == 0 {
                    assert(all_polygons@[0] == t.2);
                    assert(all_polygons@[j2] == ct.2[j2 - 1]);
                } else {
                    assert(all_polygons@[j1] == ct.2[j1 - 1]);
                    assert(all_polygons@[j2] == ct.2[j2 - 1]);
                }
            }
        }
    }
    (all_vertices, all_indices, all_polygons)
}

/// Tessellate the whole arena: for each window, walk its children
/// depth-first, concatenating vertices, indices and polygon records with a
/// running vertex offset. (Window iteration order is table order; only one
/// window is populated in practice, so the order is not observable.)
pub fn make_vertices_and_indices(guibase: &GUIBase) -> (r: (Vec<LogicalVertex>, Vec<u16>, Vec<
    Polygon,
>))
    requires
        guibase.wf(),
        spec_pipeline(*guibase).0.len() <= MAX_VERTEX_INDEX as int,
    ensures
        (r.0@, r.1@, r.2@) == spec_pipeline(*guibase),
        tess_ok(r.0@, r.1@, r.2@, 0),
{
    let ghost full = spec_pipeline(*guibase);
    let mut all_vertices: Vec<LogicalVertex> = Vec::new();
    let mut all_indices: Vec<u16> = Vec::new();
    let mut all_polygons: Vec<Polygon> = Vec::new();
    proof {
        assert(Seq::<LogicalVertex>::empty() + full.0 =~= full.0);
        assert(Seq::<u16>::empty() + full.1 =~= full.1);
        assert(Seq::<Polygon>::empty() + full.2 =~= full.2);
    }
    let mut wj: usize = 0;
    while wj < guibase.windows.len()
        invariant
            guibase.wf(),
            full == spec_pipeline(*guibase),
            full.0.len() <= MAX_VERTEX_INDEX as int,
            wj <= guibase.windows@.len(),
            full.0 == all_vertices@ + windows_tess(*guibase, wj as int, all_vertices@.len() as int).0,
            full.1 == all_indices@ + windows_tess(*guibase, wj as int, all_vertices@.len() as int).1,
            full.2 == all_polygons@ + windows_tess(
                *guibase,
                wj as int,
                all_vertices@.len() as int,
            ).2,
            tess_ok(all_vertices@, all_indices@, all_polygons@, 0),
        decreases guibase.windows@.len() - wj,
    {
        let ghost off_k = all_vertices@.len() as int;
        let ghost rest = windows_tess(*guibase, wj as int, off_k);
        let gwindow = &guibase.windows[wj];
        let ghost sub = children_tess(
            *guibase,
            gwindow.window.spec_position(),
            gwindow.children@,
            off_k,
            -1,
        );
        proof {
            lemma_window_children_facts(*guibase, wj as int);
            assert(rest.0 == sub.0 + windows_tess(*guibase, wj as int + 1, off_k + sub.0.len()).0);
            assert(full.0.len() == all_vertices@.len() + rest.0.len());
            assert(sub.0.len() <= rest.0.len());
        }
        let anchor: GUIPosition = gwindow.get_window().get_position();
        let off_u: u16 = all_vertices.len() as u16;
        let (mut vv, mut ii, mut pp) = make_children(
            guibase,
            &anchor,
            gwindow.get_child_ids(),
            off_u,
            Ghost(-1),
        );
        let ghost old_v = all_vertices@;
        let ghost old_ix = all_indices@;
        let ghost old_p = all_polygons@;
        all_vertices.append(&mut vv);
        all_indices.append(&mut ii);
        all_polygons.append(&mut pp);
        proof {
            let rest2 = windows_tess(*guibase, wj as int + 1, off_k + sub.0.len());
            assert(full.0 =~= all_vertices@ + rest2.0);
            assert(full.1 =~= all_indices@ + rest2.1);
            assert(full.2 =~= all_polygons@ + rest2.2);
            assert(tess_ok(all_vertices@, all_indices@, all_polygons@, 0)) by {
                assert(all_vertices@ == old_v + sub.0);
                assert(all_indices@ == old_ix + sub.1);
                assert(all_polygons@ == old_p + sub.2);
                lemma_extent_sum_concat(old_p, sub.2, sub.2.len() as int);
                assert(all_vertices@.len() == extent_sum(
                    all_polygons@,
                    all_polygons@.len() as int,
                ));
                assert forall|j: int|
                    0 <= j < all_polygons@.len() && (#[trigger] all_polygons@[j]).rendered implies
                    all_polygons@[j].start_index == extent_sum(all_polygons@, j) by {
                    if j < old_p.len() {
                        assert(all_polygons@[j] == old_p[j]);
                        lemma_extent_sum_prefix(old_p, sub.2, j);
                    } else {
                        assert(all_polygons@[j] == sub.2[j - old_p.len()]);
                        lemma_extent_sum_concat(old_p, sub.2, j - old_p.len());
                    }
                }
                assert forall|m: int|
                    0 <= m < all_indices@.len() implies 0 <= #[trigger] all_indices@[m]
                    < all_vertices@.len() by {
                    if m < old_ix.len() {
                        assert(all_indices@[m] == old_ix[m]);
                    } else {
                        assert(all_indices@[m] == sub.1[m - old_ix.len()]);
                    }
                }
                assert forall|m: int|
                    0 <= m < all_vertices@.len() implies (
                #[trigger] all_vertices@[m]).in_coord_range() by {
                    if m < old_v.len() {
                        assert(all_vertices@[m] == old_v[m]);
                    } else {
                        assert(all_vertices@[m] == sub.0[m - old_v.len()]);
                    }
                }
                assert forall|j: int|
                    0 <= j < all_polygons@.len() implies ((#[trigger] all_polygons@[j]).start_index
                    == all_polygons@[j].end_index || (0 <= all_polygons@[j].start_index
                    <= all_polygons@[j].end_index <= all_vertices@.len())) && (
                all_polygons@[j].rendered ==> all_polygons@[j].start_index
                    < all_polygons@[j].end_index) by {
                    if j < old_p.len() {
                        assert(all_polygons@[j] == old_p[j]);
                    } else {
                        assert(all_polygons@[j] == sub.2[j - old_p.len()]);
                    }
                }
                assert forall|j1: int, j2: int|
                    #![trigger all_polygons@[j1], all_polygons@[j2]]
                    0 <= j1 < j2 < all_polygons@.len() implies (all_polygons@[j1].start_index
                    == all_polygons@[j1].end_index || all_polygons@[j2].start_index
                    == all_polygons@[j2].end_index || all_polygons@[j1].end_index
                    <= all_polygons@[j2].start_index) by {
                    if j2 < old_p.len() {
                        assert(all_polygons@[j1] == old_p[j1]);
                        assert(all_polygons@[j2] == old_p[j2]);
                    } else if j1 >= old_p.len() {
                        assert(all_polygons@[j1] == sub.2[j1 - old_p.len()]);
                        assert(all_polygons@[j2] == sub.2[j2 - old_p.len()]);
                    } else {
                        assert(all_polygons@[j1] == old_p[j1]);
                        assert(all_polygons@[j2] == sub.2[j2 - old_p.len()]);
                    }
                }
            }
        }
        wj = wj + 1;
    }
    proof {
        let rest = windows_tess(*guibase, wj as int, all_vertices@.len() as int);
        assert(rest.0 =~= Seq::<LogicalVertex>::empty());
        assert(full.0 =~= all_vertices@);
        assert(full.1 =~= all_indices@);
        assert(full.2 =~= all_polygons@);
    }
    (all_vertices, all_indices, all_polygons)
}

/// The ray-casting edge test, exactly: the edge from `(x1, y1)` to
/// `(x2, y2)` counts as crossed by the rightward ray from `(px, py)` when the
/// edge is not horizontal, `py` lies within the edge's closed y-extent, and
/// `px` is strictly left of the edge's x-intercept at `py` (compared by
/// cross-multiplication, so a vertical edge needs no division).
pub open spec fn edge_crosses(x1: int, y1: int, x2: int, y2: int, px: int, py: int) -> bool {
    let miny = if y1 <= y2 {
        y1
    } else {
        y2
    };
    let maxy = if y1 <= y2 {
        y2
    } else {
        y1
    };
    &&& y1 != y2
    &&& miny <= py <= maxy
    &&& (if y2 > y1 {
        (px - x1) * (y2 - y1) < (py - y1) * (x2 - x1)
    } else {
        (px - x1) * (y2 - y1) > (py - y1) * (x2 - x1)
    })
}

/// Whether edge `m` of the closed vertex ring is crossed: edge `m` runs from
/// vertex `m - 1` (or the last vertex, for `m == 0`) to vertex `m`.
pub open spec fn ring_edge_crosses(ring: Seq<LogicalVertex>, px: int, py: int, m: int) -> bool {
    let p = if m == 0 {
        ring[ring.len() - 1]
    } else {
        ring[m - 1]
    };
    let v = ring[m];
    edge_crosses(
        p.position.x.units as int,
        p.position.y.units as int,
        v.position.x.units as int,
        v.position.y.units as int,
        px,
        py,
    )
}

/// How many of the first `i` edges of the ring are crossed.
pub open spec fn crossings(ring: Seq<LogicalVertex>, px: int, py: int, i: int) -> nat
    decreases i,
{
    if i <= 0 {
        0
    } else {
        crossings(ring, px, py, i - 1) + (if ring_edge_crosses(ring, px, py, i - 1) {
            1nat
        } else {
            0nat
        })
    }
}

/// The even-odd rule: the point is inside the ring when the rightward ray
/// crosses an odd number of edges.
pub open spec fn inside_ring(ring: Seq<LogicalVertex>, px: int, py: int) -> bool {
    ring.len() > 0 && crossings(ring, px, py, ring.len() as int) % 2 == 1
}

/// The topmost hit among polygons `0..=j`: the highest-index rendered
/// polygon whose vertex ring contains the point.
pub open spec fn hit_from(
    ps: Seq<Polygon>,
    vs: Seq<LogicalVertex>,
    px: int,
    py: int,
    j: int,
) -> Option<u128>
    decreases j + 1,
{
    if j < 0 || j >= ps.len() {
        None
    } else if ps[j].rendered && inside_ring(
        vs.subrange(ps[j].start_index as int, ps[j].end_index as int),
        px,
        py,
    ) {
        Some(ps[j].widget_id)
    } else {
        hit_from(ps, vs, px, py, j - 1)
    }
}

/// The topmost hit over the whole polygon list.
pub open spec fn hit_spec(ps: Seq<Polygon>, vs: Seq<LogicalVertex>, px: int, py: int) -> Option<
    u128,
> {
    hit_from(ps, vs, px, py, ps.len() - 1)
}

/// One edge of the ray-casting containment walk; `1` when the rightward ray
/// from the point crosses the edge.
fn does_cross(p1x: i64, p1y: i64, p2x: i64, p2y: i64, px: i64, py: i64) -> (r: u32)
    requires
        -crate::vertices::COORD_LIMIT <= p1x <= crate::vertices::COORD_LIMIT,
        -crate::vertices::COORD_LIMIT <= p1y <= crate::vertices::COORD_LIMIT,
        -crate::vertices::COORD_LIMIT <= p2x <= crate::vertices::COORD_LIMIT,
        -crate::vertices::COORD_LIMIT <= p2y <= crate::vertices::COORD_LIMIT,
        -crate::vertices::COORD_LIMIT <= px <= crate::vertices::COORD_LIMIT,
        -crate::vertices::COORD_LIMIT <= py <= crate::vertices::COORD_LIMIT,
    ensures
        r == 1 <==> edge_crosses(p1x as int, p1y as int, p2x as int, p2y as int, px as int, py as int),
        r == 0 || r == 1,
{
    let min_y: i64 = if p1y < p2y {
        p1y
    } else {
        p2y
    };
    let max_y: i64 = if p1y < p2y {
        p2y
    } else {
        p1y
    };
    if p1y != p2y && min_y <= py && py <= max_y {
        proof {
            crate::guiposition::lemma_mul_bounds(
                px as int - p1x as int,
                p2y as int - p1y as int,
                2 * crate::vertices::COORD_LIMIT as int,
                2 * crate::vertices::COORD_LIMIT as int,
            );
            crate::guiposition::lemma_mul_bounds(
                py as int - p1y as int,
                p2x as int - p1x as int,
                2 * crate::vertices::COORD_LIMIT as int,
                2 * crate::vertices::COORD_LIMIT as int,
            );
        }
        let lhs: i128 = ((px as i128) - (p1x as i128)) * ((p2y as i128) - (p1y as i128));
        let rhs: i128 = ((py as i128) - (p1y as i128)) * ((p2x as i128) - (p1x as i128));
        if p2y > p1y {
            if lhs < rhs {
                1
            } else {
                0
            }
        } else {
            if lhs > rhs {
                1
            } else {
                0
            }
        }
    } else {
        0
    }
}

/// Even-odd containment of a point in the vertex ring
/// `vertices[start..end]`, walked edge by edge from the last vertex around.
fn is_inside_polygon(
    vertices: &Vec<LogicalVertex>,
    start: usize,
    end: usize,
    px: i64,
    py: i64,
) -> (r: bool)
    requires
        start < end <= vertices@.len(),
        forall|m: int| start <= m < end ==> (#[trigger] vertices@[m]).in_coord_range(),
        -crate::vertices::COORD_LIMIT <= px <= crate::vertices::COORD_LIMIT,
        -crate::vertices::COORD_LIMIT <= py <= crate::vertices::COORD_LIMIT,
    ensures
        r == inside_ring(
            vertices@.subrange(start as int, end as int),
            px as int,
            py as int,
        ),
{
    let ghost ring = vertices@.subrange(start as int, end as int);
    let ring_len: usize = end - start;
    let mut last_x: i64 = vertices[end - 1].position.x.get_length();
    let mut last_y: i64 = vertices[end - 1].position.y.get_length();
    let mut cross_count: usize = 0;
    let mut i: usize = 0;
    while i < ring_len
        invariant
            start < end <= vertices@.len(),
            ring_len == end - start,
            ring == vertices@.subrange(start as int, end as int),
            forall|m: int| start <= m < end ==> (#[trigger] vertices@[m]).in_coord_range(),
            -crate::vertices::COORD_LIMIT <= px <= crate::vertices::COORD_LIMIT,
            -crate::vertices::COORD_LIMIT <= py <= crate::vertices::COORD_LIMIT,
            i <= ring_len,
            cross_count <= i,
            cross_count == crossings(ring, px as int, py as int, i as int),
            last_x as int == (if i == 0 {
                ring[ring.len() - 1]
            } else {
                ring[i - 1]
            }).position.x.units as int,
            last_y as int == (if i == 0 {
                ring[ring.len() - 1]
            } else {
                ring[i - 1]
            }).position.y.units as int,
        decreases ring_len - i,
    {
        let this_x: i64 = vertices[start + i].position.x.get_length();
        let this_y: i64 = vertices[start + i].position.y.get_length();
        proof {
            assert(ring[i as int] == vertices@[start + i]);
            if i > 0 {
                assert(ring[i as int - 1] == vertices@[start + i - 1]);
            } else {
                assert(ring[ring.len() - 1] == vertices@[end - 1]);
            }
        }
        cross_count = cross_count + (does_cross(last_x, last_y, this_x, this_y, px, py) as usize);
        last_x = this_x;
        last_y = this_y;
        i = i + 1;
    }
    cross_count % 2 == 1
}

/// The hit-test engine: walk the polygon list from the most recently painted
/// record backward, skip records marked not rendered, and return the widget
/// id of the first whose vertex ring contains the point; `None` is the
/// expected outcome for a miss.
pub fn get_clicked_widget(
    polygons: &Vec<Polygon>,
    vertices: &Vec<LogicalVertex>,
    position: &GUIPosition,
) -> (r: Option<u128>)
    requires
        position.bounded(),
        forall|j: int|
            0 <= j < polygons@.len() ==> (#[trigger] polygons@[j]).start_index
                <= polygons@[j].end_index <= vertices@.len(),
        forall|j: int|
            0 <= j < polygons@.len() ==> ((#[trigger] polygons@[j]).rendered
                ==> polygons@[j].start_index < polygons@[j].end_index),
        forall|m: int| 0 <= m < vertices@.len() ==> (#[trigger] vertices@[m]).in_coord_range(),
    ensures
        r == hit_spec(polygons@, vertices@, position.x.units as int, position.y.units as int),
{
    let px: i64 = position.x.get_length();
    let py: i64 = position.y.get_length();
    let mut j: usize = polygons.len();
    while j > 0
        invariant
            position.bounded(),
            px == position.x.units,
            py == position.y.units,
            j <= polygons@.len(),
            forall|j2: int|
                0 <= j2 < polygons@.len() ==> (#[trigger] polygons@[j2]).start_index
                    <= polygons@[j2].end_index <= vertices@.len(),
            forall|j2: int|
                0 <= j2 < polygons@.len() ==> ((#[trigger] polygons@[j2]).rendered
                    ==> polygons@[j2].start_index < polygons@[j2].end_index),
            forall|m: int| 0 <= m < vertices@.len() ==> (#[trigger] vertices@[m]).in_coord_range(),
            hit_spec(polygons@, vertices@, px as int, py as int) == hit_from(
                polygons@,
                vertices@,
                px as int,
                py as int,
                j as int - 1,
            ),
        decreases j,
    {
        j = j - 1;
        let polygon = &polygons[j];
        if polygon.rendered {
            proof {
                assert forall|m: int|
                    polygon.start_index <= m < polygon.end_index implies (
                #[trigger] vertices@[m]).in_coord_range() by {}
            }
            if is_inside_polygon(vertices, polygon.start_index, polygon.end_index, px, py) {
                return Some(polygon.widget_id);
            }
        }
    }
    None
}

/// Walking the polygon list down from `j` to `bidx` changes nothing when no
/// polygon strictly above `bidx` is hit.
proof fn lemma_hit_from_above(
    ps: Seq<Polygon>,
    vs: Seq<LogicalVertex>,
    px: int,
    py: int,
    j: int,
    bidx: int,
)
    requires
        0 <= bidx <= j < ps.len(),
        forall|k: int|
            bidx < k < ps.len() ==> !((#[trigger] ps[k]).rendered && inside_ring(
                vs.subrange(ps[k].start_index as int, ps[k].end_index as int),
                px,
                py,
            )),
    ensures
        hit_from(ps, vs, px, py, j) == hit_from(ps, vs, px, py, bidx),
    decreases j - bidx,
{
    if j > bidx {
        lemma_hit_from_above(ps, vs, px, py, j - 1, bidx);
    }
}

/// Z-order: the hit test returns the widget of the highest-index (that is,
/// most recently painted, topmost) rendered polygon that contains the point;
/// any polygon painted earlier and sharing the point is shadowed by it.
pub proof fn lemma_hit_topmost(
    ps: Seq<Polygon>,
    vs: Seq<LogicalVertex>,
    px: int,
    py: int,
    bidx: int,
)
    requires
        0 <= bidx < ps.len(),
        ps[bidx].rendered,
        inside_ring(vs.subrange(ps[bidx].start_index as int, ps[bidx].end_index as int), px, py),
        forall|k: int|
            bidx < k < ps.len() ==> !((#[trigger] ps[k]).rendered && inside_ring(
                vs.subrange(ps[k].start_index as int, ps[k].end_index as int),
                px,
                py,
            )),
    ensures
        hit_spec(ps, vs, px, py) == Some(ps[bidx].widget_id),
{
    lemma_hit_from_above(ps, vs, px, py, ps.len() - 1, bidx);
}

/// A point outside every rendered polygon is a miss: the hit test returns
/// `None`.
pub proof fn lemma_hit_miss(ps: Seq<Polygon>, vs: Seq<LogicalVertex>, px: int, py: int)
    requires
        forall|k: int|
            0 <= k < ps.len() ==> !((#[trigger] ps[k]).rendered && inside_ring(
                vs.subrange(ps[k].start_index as int, ps[k].end_index as int),
                px,
                py,
            )),
    ensures
        hit_spec(ps, vs, px, py) is None,
{
    assert forall|j: int| -1 <= j < ps.len() implies hit_from(ps, vs, px, py, j) is None by {
        lemma_hit_from_none(ps, vs, px, py, j);
    }
}

proof fn lemma_hit_from_none(ps: Seq<Polygon>, vs: Seq<LogicalVertex>, px: int, py: int, j: int)
    requires
        j < ps.len(),
        forall|k: int|
            0 <= k < ps.len() ==> !((#[trigger] ps[k]).rendered && inside_ring(
                vs.subrange(ps[k].start_index as int, ps[k].end_index as int),
                px,
                py,
            )),
    ensures
        hit_from(ps, vs, px, py, j) is None,
    decreases j + 1,
{
    if j >= 0 {
        lemma_hit_from_none(ps, vs, px, py, j - 1);
    }
}

/// When exactly one edge of a ring is crossed, the crossing count over the
/// first `i` edges is one past that edge and zero before it.
proof fn lemma_single_crossing(ring: Seq<LogicalVertex>, px: int, py: int, j0: int, i: int)
    requires
        0 <= j0,
        0 <= i <= ring.len(),
        forall|m: int| 0 <= m < i ==> (ring_edge_crosses(ring, px, py, m) <==> m == j0),
    ensures
        crossings(ring, px, py, i) == if i > j0 {
            1nat
        } else {
            0nat
        },
    decreases i,
{
    if i > 0 {
        lemma_single_crossing(ring, px, py, j0, i - 1);
    }
}

/// Hit-test correctness for the button widget, on the middle band of its
/// face: a point strictly inside the button's bounding box whose height
/// keeps it clear of all four corner arcs (strictly between the top and
/// bottom arc rows) is contained in the emitted outline — exactly one edge,
/// the right side, is crossed by its rightward ray.
pub proof fn lemma_button_band_inside(
    b: crate::guibutton::GUIButton,
    parent: GUIPosition,
    off: u16,
    px: int,
    py: int,
)
    requires
        b.wf(),
        parent.bounded(),
        !b.degenerate(),
        parent.x.units + b.position.x.units < px < parent.x.units + b.position.x.units
            + b.size.width.units,
        parent.y.units + b.position.y.units + b.spec_radius() < py < parent.y.units
            + b.position.y.units + b.size.height.units - b.spec_radius(),
    ensures
        inside_ring(b.tess_spec(parent, off).0, px, py),
{
    let ring = b.tess_spec(parent, off).0;
    let rc = b.spec_radius();
    let bx = parent.x.units as int + b.position.x.units as int;
    let by = parent.y.units as int + b.position.y.units as int;
    let w = b.size.width.units as int;
    let h = b.size.height.units as int;
    assert(ring.len() == 32);
    crate::guibutton::lemma_arc_off_ends(rc);
    assert forall|m: int| 0 <= m < 32 implies (ring_edge_crosses(ring, px, py, m) <==> m
        == 24) by {
        let pidx = if m == 0 {
            31int
        } else {
            m - 1
        };
        assert(ring[m] == b.vertex_at(parent, m));
        assert(ring[pidx] == b.vertex_at(parent, pidx));
        lemma_arc_off_range(rc, m % 8);
        lemma_arc_off_range(rc, 7 - m % 8);
        lemma_arc_off_range(rc, pidx % 8);
        lemma_arc_off_range(rc, 7 - pidx % 8);
        let x1 = ring[pidx].position.x.units as int;
        let y1 = ring[pidx].position.y.units as int;
        let x2 = ring[m].position.x.units as int;
        let y2 = ring[m].position.y.units as int;
        if m == 8 {
            assert(x1 == bx && y1 == by + rc);
            assert(x2 == bx && y2 == by + h - rc);
            assert((px - x1) * (y2 - y1) > 0) by (nonlinear_arith)
                requires
                    px - x1 > 0,
                    y2 - y1 > 0,
            ;
            assert((py - y1) * (x2 - x1) == 0) by (nonlinear_arith)
                requires
                    x2 - x1 == 0,
            ;
            assert(!ring_edge_crosses(ring, px, py, m));
        } else if m == 24 {
            assert(x1 == bx + w && y1 == by + h - rc);
            assert(x2 == bx + w && y2 == by + rc);
            assert((px - x1) * (y2 - y1) > 0) by (nonlinear_arith)
                requires
                    px - x1 < 0,
                    y2 - y1 < 0,
            ;
            assert((py - y1) * (x2 - x1) == 0) by (nonlinear_arith)
                requires
                    x2 - x1 == 0,
            ;
            assert(ring_edge_crosses(ring, px, py, m));
        } else if m == 0 || m == 16 {
            assert(y1 == y2);
            assert(!ring_edge_crosses(ring, px, py, m));
        } else if m < 8 {
            assert(by <= y1 <= by + rc && by <= y2 <= by + rc);
            assert(!ring_edge_crosses(ring, px, py, m));
        } else if m < 16 {
            assert(by + h - rc <= y1 <= by + h && by + h - rc <= y2 <= by + h);
            assert(!ring_edge_crosses(ring, px, py, m));
        } else if m < 24 {
            assert(by + h - rc <= y1 <= by + h && by + h - rc <= y2 <= by + h);
            assert(!ring_edge_crosses(ring, px, py, m));
        } else {
            assert(by <= y1 <= by + rc && by <= y2 <= by + rc);
            assert(!ring_edge_crosses(ring, px, py, m));
        }
    }
    lemma_single_crossing(ring, px, py, 24, 32);
}

/// Which ring edges a rightward ray from a top-rows column point crosses:
/// exactly the top-right arc edge whose sample heights bracket the point.
#[verifier::rlimit(60)]
proof fn lemma_top_edge(
    b: crate::guibutton::GUIButton,
    parent: GUIPosition,
    off: u16,
    px: int,
    py: int,
    k0: int,
    m: int,
)
    requires
        b.wf(),
        parent.bounded(),
        !b.degenerate(),
        parent.x.units + b.position.x.units + b.spec_radius() < px < parent.x.units
            + b.position.x.units + b.size.width.units - b.spec_radius(),
        parent.y.units + b.position.y.units < py < parent.y.units + b.position.y.units
            + b.spec_radius(),
        0 <= k0 < 7,
        crate::guibutton::arc_off(b.spec_radius(), k0 + 1) < parent.y.units + b.position.y.units
            + b.spec_radius() - py < crate::guibutton::arc_off(b.spec_radius(), k0),
        0 <= m < 32,
    ensures
        ring_edge_crosses(b.tess_spec(parent, off).0, px, py, m) <==> m == 31 - k0,
{
    let ring = b.tess_spec(parent, off).0;
    let rc = b.spec_radius();
    let bx = parent.x.units as int + b.position.x.units as int;
    let by = parent.y.units as int + b.position.y.units as int;
    let w = b.size.width.units as int;
    let h = b.size.height.units as int;
    assert(rc >= 0 && 2 * rc <= w && 2 * rc <= h);
    assert(ring.len() == 32);
    crate::guibutton::lemma_arc_off_ends(rc);
    let pidx = if m == 0 {
        31int
    } else {
        m - 1
    };
    assert(ring[m] == b.vertex_at(parent, m));
    assert(ring[pidx] == b.vertex_at(parent, pidx));
    lemma_arc_off_range(rc, m % 8);
    lemma_arc_off_range(rc, 7 - m % 8);
    lemma_arc_off_range(rc, pidx % 8);
    lemma_arc_off_range(rc, 7 - pidx % 8);
    let x1 = ring[pidx].position.x.units as int;
    let y1 = ring[pidx].position.y.units as int;
    let x2 = ring[m].position.x.units as int;
    let y2 = ring[m].position.y.units as int;
    let tgt = 31 - k0;
    if m == tgt {
        let j0 = m - 25;
        assert(7 - j0 == k0 + 1 && 7 - (j0 + 1) == k0);
        crate::guibutton::lemma_arc_off_monotone(rc, j0, j0 + 1);
        assert(y1 == by + rc - crate::guibutton::arc_off(rc, k0 + 1));
        assert(y2 == by + rc - crate::guibutton::arc_off(rc, k0));
        assert(y2 < py < y1);
        assert(px < x2 <= x1);
        assert((px - x1) * (y2 - y1) > (py - y1) * (x2 - x1)) by (nonlinear_arith)
            requires
                px < x2 <= x1,
                y2 < py < y1,
        ;
        assert(ring_edge_crosses(ring, px, py, m));
    } else if 1 <= m <= 7 {
        crate::guibutton::lemma_arc_off_monotone(rc, m - 1, m);
        crate::guibutton::lemma_arc_off_monotone(rc, 7 - m, 8 - m);
        if y1 < y2 && y1 <= py && py <= y2 {
            assert(px > x1 && x2 <= x1);
            assert(!((px - x1) * (y2 - y1) < (py - y1) * (x2 - x1))) by (nonlinear_arith)
                requires
                    px > x1,
                    y1 < y2,
                    y1 <= py,
                    x2 <= x1,
            ;
        }
        assert(!ring_edge_crosses(ring, px, py, m));
    } else if 25 <= m <= 31 {
        let j = m - 25;
        if j < 6 - k0 {
            crate::guibutton::lemma_arc_off_monotone(rc, k0 + 1, 6 - j);
            assert(y2 == by + rc - crate::guibutton::arc_off(rc, 6 - j));
            assert(py < y2 && py < y1 && y2 <= y1) by {
                crate::guibutton::lemma_arc_off_monotone(rc, 6 - j, 7 - j);
            }
        } else {
            crate::guibutton::lemma_arc_off_monotone(rc, 7 - j, k0);
            assert(y1 == by + rc - crate::guibutton::arc_off(rc, 7 - j));
            assert(py > y1 && py > y2 && y2 <= y1) by {
                crate::guibutton::lemma_arc_off_monotone(rc, 6 - j, 7 - j);
            }
        }
        assert(!ring_edge_crosses(ring, px, py, m));
    } else {
        assert(!ring_edge_crosses(ring, px, py, m));
    }
}

/// Which ring edges a rightward ray from a bottom-rows column point crosses:
/// exactly the bottom-right arc edge whose sample heights bracket the point.
#[verifier::rlimit(60)]
proof fn lemma_bottom_edge(
    b: crate::guibutton::GUIButton,
    parent: GUIPosition,
    off: u16,
    px: int,
    py: int,
    k0: int,
    m: int,
)
    requires
        b.wf(),
        parent.bounded(),
        !b.degenerate(),
        parent.x.units + b.position.x.units + b.spec_radius() < px < parent.x.units
            + b.position.x.units + b.size.width.units - b.spec_radius(),
        parent.y.units + b.position.y.units + b.size.height.units - b.spec_radius() < py
            < parent.y.units + b.position.y.units + b.size.height.units,
        0 <= k0 < 7,
        crate::guibutton::arc_off(b.spec_radius(), k0 + 1) < py - (parent.y.units
            + b.position.y.units + b.size.height.units - b.spec_radius())
            < crate::guibutton::arc_off(b.spec_radius(), k0),
        0 <= m < 32,
    ensures
        ring_edge_crosses(b.tess_spec(parent, off).0, px, py, m) <==> m == 17 + k0,
{
    let ring = b.tess_spec(parent, off).0;
    let rc = b.spec_radius();
    let bx = parent.x.units as int + b.position.x.units as int;
    let by = parent.y.units as int + b.position.y.units as int;
    let w = b.size.width.units as int;
    let h = b.size.height.units as int;
    assert(rc >= 0 && 2 * rc <= w && 2 * rc <= h);
    assert(ring.len() == 32);
    crate::guibutton::lemma_arc_off_ends(rc);
    let pidx = if m == 0 {
        31int
    } else {
        m - 1
    };
    assert(ring[m] == b.vertex_at(parent, m));
    assert(ring[pidx] == b.vertex_at(parent, pidx));
    lemma_arc_off_range(rc, m % 8);
    lemma_arc_off_range(rc, 7 - m % 8);
    lemma_arc_off_range(rc, pidx % 8);
    lemma_arc_off_range(rc, 7 - pidx % 8);
    let x1 = ring[pidx].position.x.units as int;
    let y1 = ring[pidx].position.y.units as int;
    let x2 = ring[m].position.x.units as int;
    let y2 = ring[m].position.y.units as int;
    let tgt = 17 + k0;
    if m == tgt {
        let j0 = m - 17;
        assert(j0 == k0);
        crate::guibutton::lemma_arc_off_monotone(rc, 7 - j0 - 1, 7 - j0);
        assert(y1 == by + h - rc + crate::guibutton::arc_off(rc, k0));
        assert(y2 == by + h - rc + crate::guibutton::arc_off(rc, k0 + 1));
        assert(y2 < py < y1);
        assert(px < x1 && x1 <= x2);
        assert((px - x1) * (y2 - y1) > (py - y1) * (x2 - x1)) by (nonlinear_arith)
            requires
                px < x1 <= x2,
                y2 < py < y1,
        ;
        assert(ring_edge_crosses(ring, px, py, m));
    } else if 9 <= m <= 15 {
        crate::guibutton::lemma_arc_off_monotone(rc, m - 9, m - 8);
        crate::guibutton::lemma_arc_off_monotone(rc, 15 - m, 16 - m);
        if y1 < y2 && y1 <= py && py <= y2 {
            assert(px > x2 && x1 <= x2);
            assert(!((px - x1) * (y2 - y1) < (py - y1) * (x2 - x1))) by (nonlinear_arith)
                requires
                    px > x2,
                    x1 <= x2,
                    y1 < y2,
                    y1 <= py <= y2,
            ;
        }
        assert(!ring_edge_crosses(ring, px, py, m));
    } else if 17 <= m <= 23 {
        let j = m - 17;
        if j < k0 {
            crate::guibutton::lemma_arc_off_monotone(rc, j + 1, k0);
            assert(y2 == by + h - rc + crate::guibutton::arc_off(rc, j + 1));
            assert(py < y2 && py < y1 && y2 <= y1) by {
                crate::guibutton::lemma_arc_off_monotone(rc, j, j + 1);
            }
        } else {
            crate::guibutton::lemma_arc_off_monotone(rc, k0 + 1, j);
            assert(y1 == by + h - rc + crate::guibutton::arc_off(rc, j));
            assert(py > y1 && py > y2 && y2 <= y1) by {
                crate::guibutton::lemma_arc_off_monotone(rc, j, j + 1);
            }
        }
        assert(!ring_edge_crosses(ring, px, py, m));
    } else {
        assert(!ring_edge_crosses(ring, px, py, m));
    }
}

/// The top-rows case of the column containment: one top-right arc edge is
/// crossed.
proof fn lemma_button_column_top(
    b: crate::guibutton::GUIButton,
    parent: GUIPosition,
    off: u16,
    px: int,
    py: int,
)
    requires
        b.wf(),
        parent.bounded(),
        !b.degenerate(),
        parent.x.units + b.position.x.units + b.spec_radius() < px < parent.x.units
            + b.position.x.units + b.size.width.units - b.spec_radius(),
        parent.y.units + b.position.y.units < py < parent.y.units + b.position.y.units
            + b.spec_radius(),
        forall|m: int|
            0 <= m < 8 ==> py != parent.y.units + b.position.y.units + b.spec_radius()
                - crate::guibutton::arc_off(b.spec_radius(), m),
    ensures
        inside_ring(b.tess_spec(parent, off).0, px, py),
{
    let ring = b.tess_spec(parent, off).0;
    let rc = b.spec_radius();
    let by = parent.y.units as int + b.position.y.units as int;
    assert(rc >= 0);
    assert(ring.len() == 32);
    crate::guibutton::lemma_arc_off_ends(rc);
    let q = by + rc - py;
    crate::guibutton::lemma_arc_span(rc, q, 0);
    let k0 = choose|k0: int|
        0 <= k0 < 7 && crate::guibutton::arc_off(rc, k0 + 1) < q
            < #[trigger] crate::guibutton::arc_off(rc, k0);
    assert forall|m: int| 0 <= m < 32 implies (ring_edge_crosses(ring, px, py, m) <==> m == 31
        - k0) by {
        lemma_top_edge(b, parent, off, px, py, k0, m);
    }
    lemma_single_crossing(ring, px, py, 31 - k0, 32);
}

/// The bottom-rows case of the column containment: one bottom-right arc
/// edge is crossed.
proof fn lemma_button_column_bottom(
    b: crate::guibutton::GUIButton,
    parent: GUIPosition,
    off: u16,
    px: int,
    py: int,
)
    requires
        b.wf(),
        parent.bounded(),
        !b.degenerate(),
        parent.x.units + b.position.x.units + b.spec_radius() < px < parent.x.units
            + b.position.x.units + b.size.width.units - b.spec_radius(),
        parent.y.units + b.position.y.units + b.size.height.units - b.spec_radius() < py
            < parent.y.units + b.position.y.units + b.size.height.units,
        forall|m: int|
            0 <= m < 8 ==> py != parent.y.units + b.position.y.units + b.size.height.units
                - b.spec_radius() + crate::guibutton::arc_off(b.spec_radius(), m),
    ensures
        inside_ring(b.tess_spec(parent, off).0, px, py),
{
    let ring = b.tess_spec(parent, off).0;
    let rc = b.spec_radius();
    let by = parent.y.units as int + b.position.y.units as int;
    let h = b.size.height.units as int;
    assert(rc >= 0);
    assert(ring.len() == 32);
    crate::guibutton::lemma_arc_off_ends(rc);
    let q = py - (by + h - rc);
    crate::guibutton::lemma_arc_span(rc, q, 0);
    let k0 = choose|k0: int|
        0 <= k0 < 7 && crate::guibutton::arc_off(rc, k0 + 1) < q
            < #[trigger] crate::guibutton::arc_off(rc, k0);
    assert forall|m: int| 0 <= m < 32 implies (ring_edge_crosses(ring, px, py, m) <==> m == 17
        + k0) by {
        lemma_bottom_edge(b, parent, off, px, py, k0, m);
    }
    lemma_single_crossing(ring, px, py, 17 + k0, 32);
}

/// Hit-test correctness for the button widget, on the middle column of its
/// face: a point strictly between the left and right arc columns, strictly
/// inside the box in height, and not exactly at one of the sampled arc
/// heights (where the closed-boundary edge rule counts a crossing twice) is
/// contained in the emitted outline — exactly one right-hand edge is
/// crossed by its rightward ray.
pub proof fn lemma_button_column_inside(
    b: crate::guibutton::GUIButton,
    parent: GUIPosition,
    off: u16,
    px: int,
    py: int,
)
    requires
        b.wf(),
        parent.bounded(),
        !b.degenerate(),
        parent.x.units + b.position.x.units + b.spec_radius() < px < parent.x.units
            + b.position.x.units + b.size.width.units - b.spec_radius(),
        parent.y.units + b.position.y.units < py < parent.y.units + b.position.y.units
            + b.size.height.units,
        forall|m: int|
            0 <= m < 8 ==> py != parent.y.units + b.position.y.units + b.spec_radius()
                - crate::guibutton::arc_off(b.spec_radius(), m),
        forall|m: int|
            0 <= m < 8 ==> py != parent.y.units + b.position.y.units + b.size.height.units
                - b.spec_radius() + crate::guibutton::arc_off(b.spec_radius(), m),
    ensures
        inside_ring(b.tess_spec(parent, off).0, px, py),
{
    let rc = b.spec_radius();
    let by = parent.y.units as int + b.position.y.units as int;
    let h = b.size.height.units as int;
    assert(rc >= 0 && 2 * rc <= h);
    crate::guibutton::lemma_arc_off_ends(rc);
    assert(py != by + rc);
    assert(py != by + h - rc);
    if py < by + rc {
        lemma_button_column_top(b, parent, off, px, py);
    } else if py < by + h - rc {
        lemma_button_band_inside(b, parent, off, px, py);
    } else {
        lemma_button_column_bottom(b, parent, off, px, py);
    }
}

/// Hit-test correctness, end to end: when polygon `j` is a button's record,
/// its vertex range holds the button's outline, the point is on the button's
/// middle band (between the arc rows) or middle column (between the arc
/// columns, away from the sampled arc heights), and no later-painted polygon
/// contains the point, the hit test answers with that button's id.
pub proof fn lemma_hit_test_button(
    ps: Seq<Polygon>,
    vs: Seq<LogicalVertex>,
    px: int,
    py: int,
    j: int,
    b: crate::guibutton::GUIButton,
    parent: GUIPosition,
    off: u16,
)
    requires
        0 <= j < ps.len(),
        ps[j] == b.tess_spec(parent, off).2,
        vs.subrange(ps[j].start_index as int, ps[j].end_index as int) == b.tess_spec(
            parent,
            off,
        ).0,
        b.wf(),
        parent.bounded(),
        !b.degenerate(),
        (parent.x.units + b.position.x.units < px < parent.x.units + b.position.x.units
            + b.size.width.units && parent.y.units + b.position.y.units + b.spec_radius() < py
            < parent.y.units + b.position.y.units + b.size.height.units - b.spec_radius()) || (
        parent.x.units + b.position.x.units + b.spec_radius() < px < parent.x.units
            + b.position.x.units + b.size.width.units - b.spec_radius() && parent.y.units
            + b.position.y.units < py < parent.y.units + b.position.y.units
            + b.size.height.units && (forall|m: int|
            0 <= m < 8 ==> py != parent.y.units + b.position.y.units + b.spec_radius()
                - crate::guibutton::arc_off(b.spec_radius(), m)) && (forall|m: int|
            0 <= m < 8 ==> py != parent.y.units + b.position.y.units + b.size.height.units
                - b.spec_radius() + crate::guibutton::arc_off(b.spec_radius(), m))),
        forall|k: int|
            j < k < ps.len() ==> !((#[trigger] ps[k]).rendered && inside_ring(
                vs.subrange(ps[k].start_index as int, ps[k].end_index as int),
                px,
                py,
            )),
    ensures
        hit_spec(ps, vs, px, py) == Some(b.spec_id()),
{
    if parent.x.units + b.position.x.units < px < parent.x.units + b.position.x.units
        + b.size.width.units && parent.y.units + b.position.y.units + b.spec_radius() < py
        < parent.y.units + b.position.y.units + b.size.height.units - b.spec_radius() {
        lemma_button_band_inside(b, parent, off, px, py);
    } else {
        lemma_button_column_inside(b, parent, off, px, py);
    }
    lemma_hit_topmost(ps, vs, px, py, j);
}

} // verus!
