//! The widget arena: the owning registry of all windows and widgets, keyed by
//! identity. Parent-to-child edges live here, as id lists, never as pointers;
//! one id is designated the base window (the first window added).
//!
//! Structural invariants (see `GUIBase::wf`): ids are unique across the whole
//! arena; every non-window widget id appears in exactly one parent's child
//! list; a child always sits later in the widget table than its parent, so
//! parent-child chains cannot form cycles.

use vstd::prelude::*;
use crate::guibutton::GUIButton;
use crate::guiposition::GUIScale;
use crate::guiposition::GUISize;
use crate::guiposition::GUIPosition;
use crate::guitraits::Widget;
use crate::guiwindow::GUIWindow;
use crate::vertices::LogicalVertex;
use crate::vertices::Polygon;

verus! {

/// The closed set of widget kinds the arena can own as children.
pub enum WidgetKind {
    Window(GUIWindow),
    Button(GUIButton),
}

impl Widget for WidgetKind {
    open spec fn spec_id(&self) -> u128 {
        match self {
            WidgetKind::Window(w) => w.spec_id(),
            WidgetKind::Button(b) => b.spec_id(),
        }
    }

    open spec fn spec_size(&self) -> GUISize {
        match self {
            WidgetKind::Window(w) => w.spec_size(),
            WidgetKind::Button(b) => b.spec_size(),
        }
    }

    open spec fn spec_position(&self) -> GUIPosition {
        match self {
            WidgetKind::Window(w) => w.spec_position(),
            WidgetKind::Button(b) => b.spec_position(),
        }
    }

    open spec fn wf(&self) -> bool {
        match self {
            WidgetKind::Window(w) => w.wf(),
            WidgetKind::Button(b) => b.wf(),
        }
    }

    open spec fn vertex_count(&self) -> int {
        match self {
            WidgetKind::Window(w) => w.vertex_count(),
            WidgetKind::Button(b) => b.vertex_count(),
        }
    }

    open spec fn tess_spec(&self, parent: GUIPosition, offset: u16) -> (Seq<LogicalVertex>, Seq<
        u16,
    >, Polygon) {
        match self {
            WidgetKind::Window(w) => w.tess_spec(parent, offset),
            WidgetKind::Button(b) => b.tess_spec(parent, offset),
        }
    }

    fn get_size(&self) -> (r: &GUISize) {
        match self {
            WidgetKind::Window(w) => w.get_size(),
            WidgetKind::Button(b) => b.get_size(),
        }
    }

    fn get_position(&self) -> (r: GUIPosition) {
        match self {
            WidgetKind::Window(w) => w.get_position(),
            WidgetKind::Button(b) => b.get_position(),
        }
    }

    fn get_id(&self) -> (r: u128) {
        match self {
            WidgetKind::Window(w) => w.get_id(),
            WidgetKind::Button(b) => b.get_id(),
        }
    }

    fn get_vertices_and_indices(&self, parent_position: &GUIPosition, indice_offset: u16) -> (r: (
        Vec<LogicalVertex>,
        Vec<u16>,
        Polygon,
    )) {
        match self {
            WidgetKind::Window(w) => w.get_vertices_and_indices(parent_position, indice_offset),
            WidgetKind::Button(b) => b.get_vertices_and_indices(parent_position, indice_offset),
        }
    }
}

/// A window entry: the window widget plus its owned child-id list
/// (insertion order is paint order; later entries draw on top).
pub struct GWindow {
    pub window: GUIWindow,
    pub children: Vec<u128>,
}

impl GWindow {
    pub fn get_window(&self) -> (r: &GUIWindow)
        ensures
            *r == self.window,
    {
        &self.window
    }

    pub fn get_child_ids(&self) -> (r: &Vec<u128>)
        ensures
            *r == self.children,
    {
        &self.children
    }
}

/// A widget entry: the widget, its parent's id (a lookup-only back-reference)
/// and its owned child-id list.
pub struct GWidget {
    pub widget: WidgetKind,
    pub parent: u128,
    pub children: Vec<u128>,
}

impl GWidget {
    pub fn get_widget(&self) -> (r: &WidgetKind)
        ensures
            *r == self.widget,
    {
        &self.widget
    }

    pub fn get_parent_id(&self) -> (r: &u128)
        ensures
            *r == self.parent,
    {
        &self.parent
    }

    pub fn get_child_ids(&self) -> (r: &Vec<u128>)
        ensures
            *r == self.children,
    {
        &self.children
    }
}

/// Window table `ws` holds `id` at some index.
pub open spec fn has_window_in(ws: Seq<GWindow>, id: u128) -> bool {
    exists|i: int| #![trigger ws[i]] 0 <= i < ws.len() && ws[i].window.id == id
}

/// Widget table `xs` holds `id` at some index.
pub open spec fn has_widget_in(xs: Seq<GWidget>, id: u128) -> bool {
    exists|i: int| #![trigger xs[i]] 0 <= i < xs.len() && xs[i].widget.spec_id() == id
}

/// The index of `id` in the window table (meaningful when it is there).
pub open spec fn window_idx_of(ws: Seq<GWindow>, id: u128) -> int {
    choose|i: int| 0 <= i < ws.len() && ws[i].window.id == id
}

/// The index of `id` in the widget table (meaningful when it is there).
pub open spec fn widget_idx_of(xs: Seq<GWidget>, id: u128) -> int {
    choose|i: int| 0 <= i < xs.len() && xs[i].widget.spec_id() == id
}

/// Ids are unique: across windows, across widgets, and between the two.
pub open spec fn ids_unique_in(ws: Seq<GWindow>, xs: Seq<GWidget>) -> bool {
    &&& forall|i: int, j: int|
        #![trigger ws[i], ws[j]]
        0 <= i < j < ws.len() ==> ws[i].window.id != ws[j].window.id
    &&& forall|i: int, j: int|
        #![trigger xs[i], xs[j]]
        0 <= i < j < xs.len() ==> xs[i].widget.spec_id() != xs[j].widget.spec_id()
    &&& forall|i: int, j: int|
        #![trigger ws[i], xs[j]]
        0 <= i < ws.len() && 0 <= j < xs.len() ==> ws[i].window.id != xs[j].widget.spec_id()
}

/// The widget table has an entry for id `ch` whose parent back-reference is
/// `pid` and whose index is past `after`.
pub open spec fn linked_to(xs: Seq<GWidget>, ch: u128, pid: u128, after: int) -> bool {
    exists|w: int|
        #![trigger xs[w]]
        0 <= w < xs.len() && xs[w].widget.spec_id() == ch && xs[w].parent == pid && w > after
}

/// Every child id in a window's list names an existing widget whose parent
/// back-reference is that window. (Opaque: its quantifiers feed each other
/// through fresh index terms, so it is revealed only where used.)
#[verifier::opaque]
pub open spec fn win_children_linked(ws: Seq<GWindow>, xs: Seq<GWidget>) -> bool {
    forall|i: int, c: int|
        0 <= i < ws.len() && 0 <= c < ws[i].children@.len() ==> linked_to(
            xs,
            #[trigger] ws[i].children@[c],
            ws[i].window.id,
            -1,
        )
}

/// Every child id in a widget's list names an existing widget, later in the
/// table, whose parent back-reference is that widget. (Opaque, as above.)
#[verifier::opaque]
pub open spec fn widget_children_linked(xs: Seq<GWidget>) -> bool {
    forall|i: int, c: int|
        0 <= i < xs.len() && 0 <= c < xs[i].children@.len() ==> linked_to(
            xs,
            #[trigger] xs[i].children@[c],
            xs[i].widget.spec_id(),
            i,
        )
}

/// No window's child list mentions an id twice.
#[verifier::opaque]
pub open spec fn win_children_distinct(ws: Seq<GWindow>) -> bool {
    forall|i: int, c1: int, c2: int|
        #![trigger ws[i].children@[c1], ws[i].children@[c2]]
        0 <= i < ws.len() && 0 <= c1 < c2 < ws[i].children@.len() ==> ws[i].children@[c1]
            != ws[i].children@[c2]
}

/// No widget's child list mentions an id twice.
#[verifier::opaque]
pub open spec fn widget_children_distinct(xs: Seq<GWidget>) -> bool {
    forall|i: int, c1: int, c2: int|
        #![trigger xs[i].children@[c1], xs[i].children@[c2]]
        0 <= i < xs.len() && 0 <= c1 < c2 < xs[i].children@.len() ==> xs[i].children@[c1]
            != xs[i].children@[c2]
}

/// The whole child-edge invariant.
pub open spec fn children_wf_in(ws: Seq<GWindow>, xs: Seq<GWidget>) -> bool {
    &&& win_children_linked(ws, xs)
    &&& widget_children_linked(xs)
    &&& win_children_distinct(ws)
    &&& widget_children_distinct(xs)
}

/// Every widget's id occurs in the child list of the container its parent
/// back-reference names. (Opaque, as above.)
#[verifier::opaque]
pub open spec fn rooted_in(ws: Seq<GWindow>, xs: Seq<GWidget>) -> bool {
    forall|i: int|
        0 <= i < xs.len() ==> {
            let p = (#[trigger] xs[i]).parent;
            let myid = xs[i].widget.spec_id();
            ||| exists|j: int|
                #![trigger ws[j]]
                0 <= j < ws.len() && ws[j].window.id == p && ws[j].children@.contains(myid)
            ||| exists|j: int|
                #![trigger xs[j]]
                0 <= j < xs.len() && xs[j].widget.spec_id() == p && xs[j].children@.contains(myid)
        }
}

/// Every stored widget and window is within tessellation bounds.
pub open spec fn geom_wf_in(ws: Seq<GWindow>, xs: Seq<GWidget>) -> bool {
    &&& forall|i: int| 0 <= i < ws.len() ==> (#[trigger] ws[i]).window.wf()
    &&& forall|i: int| 0 <= i < xs.len() ==> (#[trigger] xs[i]).widget.wf()
}

/// All structural invariants at once.
pub open spec fn arena_inv(ws: Seq<GWindow>, xs: Seq<GWidget>) -> bool {
    &&& ids_unique_in(ws, xs)
    &&& children_wf_in(ws, xs)
    &&& rooted_in(ws, xs)
    &&& geom_wf_in(ws, xs)
}

/// A window table whose entries keep their ids and child lists (new entries
/// childless) keeps its child lists linked to the same widget table.
proof fn lemma_win_linked_transfer(ws0: Seq<GWindow>, xs: Seq<GWidget>, ws1: Seq<GWindow>)
    requires
        win_children_linked(ws0, xs),
        forall|i: int|
            0 <= i < ws1.len() ==> i < ws0.len() && (#[trigger] ws1[i]).children@
                == ws0[i].children@ && ws1[i].window.id == ws0[i].window.id || (
            #[trigger] ws1[i]).children@.len() == 0,
    ensures
        win_children_linked(ws1, xs),
{
    reveal(win_children_linked);
    assert forall|i: int, c: int|
        0 <= i < ws1.len() && 0 <= c < ws1[i].children@.len() implies linked_to(
        xs,
        #[trigger] ws1[i].children@[c],
        ws1[i].window.id,
        -1,
    ) by {
        assert(ws1[i].children@ == ws0[i].children@);
        assert(linked_to(xs, ws0[i].children@[c], ws0[i].window.id, -1));
    }
}

/// The same transfer for the no-duplicates part.
proof fn lemma_win_distinct_transfer(ws0: Seq<GWindow>, ws1: Seq<GWindow>)
    requires
        win_children_distinct(ws0),
        forall|i: int|
            0 <= i < ws1.len() ==> i < ws0.len() && (#[trigger] ws1[i]).children@
                == ws0[i].children@ || (#[trigger] ws1[i]).children@.len() == 0,
    ensures
        win_children_distinct(ws1),
{
    reveal(win_children_distinct);
    assert forall|i: int, c1: int, c2: int|
        #![trigger ws1[i].children@[c1], ws1[i].children@[c2]]
        0 <= i < ws1.len() && 0 <= c1 < c2 < ws1[i].children@.len() implies ws1[i].children@[c1]
            != ws1[i].children@[c2] by {
        assert(ws1[i].children@ == ws0[i].children@);
    }
}

/// The same transfer for the rooting invariant.
proof fn lemma_rooted_transfer(ws0: Seq<GWindow>, xs: Seq<GWidget>, ws1: Seq<GWindow>)
    requires
        rooted_in(ws0, xs),
        ws1.len() >= ws0.len(),
        forall|i: int|
            0 <= i < ws0.len() ==> (#[trigger] ws1[i]).children@ == ws0[i].children@
                && ws1[i].window.id == ws0[i].window.id,
    ensures
        rooted_in(ws1, xs),
{
    reveal(rooted_in);
    assert forall|i: int| 0 <= i < xs.len() implies {
        let p = (#[trigger] xs[i]).parent;
        let myid = xs[i].widget.spec_id();
        ||| exists|j: int|
            #![trigger ws1[j]]
            0 <= j < ws1.len() && ws1[j].window.id == p && ws1[j].children@.contains(myid)
        ||| exists|j: int|
            #![trigger xs[j]]
            0 <= j < xs.len() && xs[j].widget.spec_id() == p && xs[j].children@.contains(myid)
    } by {
        let p = xs[i].parent;
        let myid = xs[i].widget.spec_id();
        if exists|j: int|
            #![trigger ws0[j]]
            0 <= j < ws0.len() && ws0[j].window.id == p && ws0[j].children@.contains(myid) {
            let j = choose|j: int|
                0 <= j < ws0.len() && ws0[j].window.id == p && ws0[j].children@.contains(myid);
            assert(ws1[j].window.id == p);
            assert(ws1[j].children@.contains(myid));
        }
    }
}

/// Appending a fresh, childless window preserves the arena invariants.
proof fn lemma_add_window_wf(ws0: Seq<GWindow>, xs: Seq<GWidget>, ws1: Seq<GWindow>)
    requires
        arena_inv(ws0, xs),
        ws1.len() == ws0.len() + 1,
        forall|i: int| 0 <= i < ws0.len() ==> ws1[i] == ws0[i],
        ws1[ws0.len() as int].children@.len() == 0,
        ws1[ws0.len() as int].window.wf(),
        !has_window_in(ws0, ws1[ws0.len() as int].window.id),
        !has_widget_in(xs, ws1[ws0.len() as int].window.id),
    ensures
        arena_inv(ws1, xs),
{
    lemma_win_linked_transfer(ws0, xs, ws1);
    lemma_win_distinct_transfer(ws0, ws1);
    lemma_rooted_transfer(ws0, xs, ws1);
}

/// Replacing one window's widget while keeping its id and children (and its
/// bounds) preserves the arena invariants.
proof fn lemma_replace_window_wf(
    ws0: Seq<GWindow>,
    xs: Seq<GWidget>,
    ws1: Seq<GWindow>,
    wi: int,
)
    requires
        arena_inv(ws0, xs),
        0 <= wi < ws0.len(),
        ws1.len() == ws0.len(),
        forall|i: int| 0 <= i < ws0.len() && i != wi ==> ws1[i] == ws0[i],
        ws1[wi].window.id == ws0[wi].window.id,
        ws1[wi].children@ == ws0[wi].children@,
        ws1[wi].window.wf(),
    ensures
        arena_inv(ws1, xs),
{
    assert forall|i: int|
        0 <= i < ws1.len() implies (#[trigger] ws1[i]).children@ == ws0[i].children@
        && ws1[i].window.id == ws0[i].window.id by {}
    lemma_win_linked_transfer(ws0, xs, ws1);
    lemma_win_distinct_transfer(ws0, ws1);
    lemma_rooted_transfer(ws0, xs, ws1);
}

/// A link into a widget table survives any extension that keeps every
/// existing entry's id and parent.
proof fn lemma_linked_extend(xs0: Seq<GWidget>, xs1: Seq<GWidget>, ch: u128, pid: u128, a: int)
    requires
        linked_to(xs0, ch, pid, a),
        xs1.len() >= xs0.len(),
        forall|i: int|
            0 <= i < xs0.len() ==> (#[trigger] xs1[i]).widget.spec_id()
                == xs0[i].widget.spec_id() && xs1[i].parent == xs0[i].parent,
    ensures
        linked_to(xs1, ch, pid, a),
{
    let w = choose|w: int|
        0 <= w < xs0.len() && xs0[w].widget.spec_id() == ch && xs0[w].parent == pid && w > a;
    assert(xs1[w].widget.spec_id() == ch && xs1[w].parent == pid);
}

/// Pushing a fresh widget as the child of window `wi` preserves the arena
/// invariants.
proof fn lemma_add_child_win_wf(
    ws0: Seq<GWindow>,
    xs0: Seq<GWidget>,
    ws1: Seq<GWindow>,
    xs1: Seq<GWidget>,
    wi: int,
)
    requires
        arena_inv(ws0, xs0),
        0 <= wi < ws0.len(),
        ws1.len() == ws0.len(),
        forall|i: int| 0 <= i < ws0.len() && i != wi ==> ws1[i] == ws0[i],
        ws1[wi].window == ws0[wi].window,
        xs1.len() == xs0.len() + 1,
        forall|i: int| 0 <= i < xs0.len() ==> xs1[i] == xs0[i],
        ws1[wi].children@ == ws0[wi].children@.push(
            xs1[xs0.len() as int].widget.spec_id(),
        ),
        xs1[xs0.len() as int].parent == ws0[wi].window.id,
        xs1[xs0.len() as int].children@.len() == 0,
        xs1[xs0.len() as int].widget.wf(),
        !has_widget_in(xs0, xs1[xs0.len() as int].widget.spec_id()),
        !has_window_in(ws0, xs1[xs0.len() as int].widget.spec_id()),
    ensures
        arena_inv(ws1, xs1),
{
    let n = xs0.len() as int;
    let cid = xs1[n].widget.spec_id();
    assert(win_children_linked(ws1, xs1)) by {
        reveal(win_children_linked);
        assert forall|i: int, c: int|
            0 <= i < ws1.len() && 0 <= c < ws1[i].children@.len() implies linked_to(
            xs1,
            #[trigger] ws1[i].children@[c],
            ws1[i].window.id,
            -1,
        ) by {
            if i != wi {
                assert(ws1[i] == ws0[i]);
                assert(linked_to(xs0, ws0[i].children@[c], ws0[i].window.id, -1));
                lemma_linked_extend(xs0, xs1, ws0[i].children@[c], ws0[i].window.id, -1);
            } else if c < ws0[wi].children@.len() {
                assert(ws1[wi].children@[c] == ws0[wi].children@[c]);
                assert(linked_to(xs0, ws0[wi].children@[c], ws0[wi].window.id, -1));
                lemma_linked_extend(xs0, xs1, ws0[wi].children@[c], ws0[wi].window.id, -1);
            } else {
                assert(ws1[wi].children@[c] == cid);
                assert(xs1[n].widget.spec_id() == cid && xs1[n].parent == ws1[wi].window.id);
            }
        }
    }
    assert(widget_children_linked(xs1)) by {
        reveal(widget_children_linked);
        assert forall|i: int, c: int|
            0 <= i < xs1.len() && 0 <= c < xs1[i].children@.len() implies linked_to(
            xs1,
            #[trigger] xs1[i].children@[c],
            xs1[i].widget.spec_id(),
            i,
        ) by {
            assert(i < n);
            assert(xs1[i] == xs0[i]);
            assert(xs0[i].children@[c] == xs1[i].children@[c]);
            assert(linked_to(xs0, xs0[i].children@[c], xs0[i].widget.spec_id(), i));
            lemma_linked_extend(xs0, xs1, xs0[i].children@[c], xs0[i].widget.spec_id(), i);
        }
    }
    assert(win_children_distinct(ws1)) by {
        reveal(win_children_distinct);
        reveal(win_children_linked);
        assert forall|i: int, c1: int, c2: int|
            #![trigger ws1[i].children@[c1], ws1[i].children@[c2]]
            0 <= i < ws1.len() && 0 <= c1 < c2 < ws1[i].children@.len() implies ws1[i].children@[c1]
                != ws1[i].children@[c2] by {
            if i != wi {
                assert(ws1[i] == ws0[i]);
            } else if c2 < ws0[wi].children@.len() {
                assert(ws1[wi].children@[c1] == ws0[wi].children@[c1]);
                assert(ws1[wi].children@[c2] == ws0[wi].children@[c2]);
            } else {
                assert(ws1[wi].children@[c1] == ws0[wi].children@[c1]);
                assert(ws1[wi].children@[c2] == cid);
                assert(linked_to(xs0, ws0[wi].children@[c1], ws0[wi].window.id, -1));
                let w = choose|w: int|
                    0 <= w < xs0.len() && xs0[w].widget.spec_id() == ws0[wi].children@[c1]
                        && xs0[w].parent == ws0[wi].window.id && w > -1;
                assert(xs0[w].widget.spec_id() != cid);
            }
        }
    }
    assert(widget_children_distinct(xs1)) by {
        reveal(widget_children_distinct);
        assert forall|i: int, c1: int, c2: int|
            #![trigger xs1[i].children@[c1], xs1[i].children@[c2]]
            0 <= i < xs1.len() && 0 <= c1 < c2 < xs1[i].children@.len() implies xs1[i].children@[c1]
                != xs1[i].children@[c2] by {
            assert(i < n);
            assert(xs1[i] == xs0[i]);
            assert(xs1[i].children@[c1] == xs0[i].children@[c1]);
            assert(xs1[i].children@[c2] == xs0[i].children@[c2]);
        }
    }
    assert(rooted_in(ws1, xs1)) by {
        reveal(rooted_in);
        assert forall|i: int| 0 <= i < xs1.len() implies {
            let p = (#[trigger] xs1[i]).parent;
            let myid = xs1[i].widget.spec_id();
            ||| exists|j: int|
                #![trigger ws1[j]]
                0 <= j < ws1.len() && ws1[j].window.id == p && ws1[j].children@.contains(myid)
            ||| exists|j: int|
                #![trigger xs1[j]]
                0 <= j < xs1.len() && xs1[j].widget.spec_id() == p && xs1[j].children@.contains(
                    myid,
                )
        } by {
            if i < n {
                assert(xs1[i] == xs0[i]);
                let p = xs0[i].parent;
                let myid = xs0[i].widget.spec_id();
                if exists|j: int|
                    #![trigger ws0[j]]
                    0 <= j < ws0.len() && ws0[j].window.id == p && ws0[j].children@.contains(
                        myid,
                    ) {
                    let j = choose|j: int|
                        0 <= j < ws0.len() && ws0[j].window.id == p && ws0[j].children@.contains(
                            myid,
                        );
                    assert(ws1[j].window.id == p);
                    if j == wi {
                        let c = choose|c: int|
                            0 <= c < ws0[wi].children@.len() && ws0[wi].children@[c] == myid;
                        assert(ws1[wi].children@[c] == myid);
                        assert(ws1[wi].children@.contains(myid));
                    } else {
                        assert(ws1[j] == ws0[j]);
                    }
                } else {
                    let j = choose|j: int|
                        0 <= j < xs0.len() && xs0[j].widget.spec_id() == p
                            && xs0[j].children@.contains(myid);
                    assert(xs1[j] == xs0[j]);
                    assert(xs1[j].children@.contains(myid));
                }
            } else {
                assert(ws1[wi].window.id == xs1[n].parent);
                assert(ws1[wi].children@[ws0[wi].children@.len() as int] == cid);
                assert(ws1[wi].children@.contains(cid));
            }
        }
    }
}

/// Pushing a fresh widget as the child of widget `pi` preserves the arena
/// invariants.
proof fn lemma_add_child_widget_wf(
    ws: Seq<GWindow>,
    xs0: Seq<GWidget>,
    xs1: Seq<GWidget>,
    pi: int,
)
    requires
        arena_inv(ws, xs0),
        0 <= pi < xs0.len(),
        xs1.len() == xs0.len() + 1,
        forall|i: int| 0 <= i < xs0.len() && i != pi ==> xs1[i] == xs0[i],
        xs1[pi].widget == xs0[pi].widget,
        xs1[pi].parent == xs0[pi].parent,
        xs1[pi].children@ == xs0[pi].children@.push(
            xs1[xs0.len() as int].widget.spec_id(),
        ),
        xs1[xs0.len() as int].parent == xs0[pi].widget.spec_id(),
        xs1[xs0.len() as int].children@.len() == 0,
        xs1[xs0.len() as int].widget.wf(),
        !has_widget_in(xs0, xs1[xs0.len() as int].widget.spec_id()),
        !has_window_in(ws, xs1[xs0.len() as int].widget.spec_id()),
    ensures
        arena_inv(ws, xs1),
{
    let n = xs0.len() as int;
    let cid = xs1[n].widget.spec_id();
    assert(forall|i: int|
        0 <= i < xs0.len() ==> (#[trigger] xs1[i]).widget.spec_id() == xs0[i].widget.spec_id()
            && xs1[i].parent == xs0[i].parent);
    assert(win_children_linked(ws, xs1)) by {
        reveal(win_children_linked);
        assert forall|i: int, c: int|
            0 <= i < ws.len() && 0 <= c < ws[i].children@.len() implies linked_to(
            xs1,
            #[trigger] ws[i].children@[c],
            ws[i].window.id,
            -1,
        ) by {
            assert(linked_to(xs0, ws[i].children@[c], ws[i].window.id, -1));
            lemma_linked_extend(xs0, xs1, ws[i].children@[c], ws[i].window.id, -1);
        }
    }
    assert(widget_children_linked(xs1)) by {
        reveal(widget_children_linked);
        assert forall|i: int, c: int|
            0 <= i < xs1.len() && 0 <= c < xs1[i].children@.len() implies linked_to(
            xs1,
            #[trigger] xs1[i].children@[c],
            xs1[i].widget.spec_id(),
            i,
        ) by {
            if i == pi && c == xs0[pi].children@.len() {
                assert(xs1[pi].children@[c] == cid);
                assert(xs1[n].widget.spec_id() == cid && xs1[n].parent
                    == xs1[pi].widget.spec_id() && n > pi);
            } else if i == pi {
                assert(xs1[pi].children@[c] == xs0[pi].children@[c]);
                assert(linked_to(xs0, xs0[pi].children@[c], xs0[pi].widget.spec_id(), pi));
                lemma_linked_extend(xs0, xs1, xs0[pi].children@[c], xs0[pi].widget.spec_id(), pi);
            } else {
                assert(i < n);
                assert(xs1[i] == xs0[i]);
                assert(xs1[i].children@[c] == xs0[i].children@[c]);
                assert(linked_to(xs0, xs0[i].children@[c], xs0[i].widget.spec_id(), i));
                lemma_linked_extend(xs0, xs1, xs0[i].children@[c], xs0[i].widget.spec_id(), i);
            }
        }
    }
    assert(widget_children_distinct(xs1)) by {
        reveal(widget_children_distinct);
        reveal(widget_children_linked);
        assert forall|i: int, c1: int, c2: int|
            #![trigger xs1[i].children@[c1], xs1[i].children@[c2]]
            0 <= i < xs1.len() && 0 <= c1 < c2 < xs1[i].children@.len() implies xs1[i].children@[c1]
                != xs1[i].children@[c2] by {
            if i == pi && c2 == xs0[pi].children@.len() {
                assert(xs1[pi].children@[c1] == xs0[pi].children@[c1]);
                assert(xs1[pi].children@[c2] == cid);
                assert(linked_to(xs0, xs0[pi].children@[c1], xs0[pi].widget.spec_id(), pi));
                let w = choose|w: int|
                    0 <= w < xs0.len() && xs0[w].widget.spec_id() == xs0[pi].children@[c1]
                        && xs0[w].parent == xs0[pi].widget.spec_id() && w > pi;
                assert(xs0[w].widget.spec_id() != cid);
            } else if i == pi {
                assert(xs1[pi].children@[c1] == xs0[pi].children@[c1]);
                assert(xs1[pi].children@[c2] == xs0[pi].children@[c2]);
            } else {
                assert(i < n);
                assert(xs1[i] == xs0[i]);
                assert(xs1[i].children@[c1] == xs0[i].children@[c1]);
                assert(xs1[i].children@[c2] == xs0[i].children@[c2]);
            }
        }
    }
    assert(rooted_in(ws, xs1)) by {
        reveal(rooted_in);
        assert forall|i: int| 0 <= i < xs1.len() implies {
            let p = (#[trigger] xs1[i]).parent;
            let myid = xs1[i].widget.spec_id();
            ||| exists|j: int|
                #![trigger ws[j]]
                0 <= j < ws.len() && ws[j].window.id == p && ws[j].children@.contains(myid)
            ||| exists|j: int|
                #![trigger xs1[j]]
                0 <= j < xs1.len() && xs1[j].widget.spec_id() == p && xs1[j].children@.contains(
                    myid,
                )
        } by {
            if i < n {
                let p = xs0[i].parent;
                let myid = xs0[i].widget.spec_id();
                assert(xs1[i].parent == p && xs1[i].widget.spec_id() == myid);
                if exists|j: int|
                    #![trigger ws[j]]
                    0 <= j < ws.len() && ws[j].window.id == p && ws[j].children@.contains(myid) {
                } else {
                    let j = choose|j: int|
                        0 <= j < xs0.len() && xs0[j].widget.spec_id() == p
                            && xs0[j].children@.contains(myid);
                    assert(xs1[j].widget.spec_id() == p);
                    if j == pi {
                        let c = choose|c: int|
                            0 <= c < xs0[pi].children@.len() && xs0[pi].children@[c] == myid;
                        assert(xs1[pi].children@[c] == myid);
                        assert(xs1[pi].children@.contains(myid));
                    } else {
                        assert(xs1[j] == xs0[j]);
                        assert(xs1[j].children@.contains(myid));
                    }
                }
            } else {
                assert(xs1[pi].widget.spec_id() == xs1[n].parent);
                assert(xs1[pi].children@[xs0[pi].children@.len() as int] == cid);
                assert(xs1[pi].children@.contains(cid));
            }
        }
    }
}

pub struct GUIBase {
    /// The id of the base window: the first window added.
    pub base_window: u128,
    /// All windows, in insertion order.
    pub windows: Vec<GWindow>,
    /// All non-window widgets, in insertion order.
    pub widgets: Vec<GWidget>,
    /// The scale between logical and physical pixels; `None` until the
    /// platform window exists.
    pub logical_scale: Option<GUIScale>,
    /// When true, resizing the window keeps the contents' logical size, so
    /// geometry is re-derived every frame.
    pub fixed_scale: bool,
}

impl GUIBase {
    pub open spec fn has_window(&self, id: u128) -> bool {
        has_window_in(self.windows@, id)
    }

    pub open spec fn has_widget(&self, id: u128) -> bool {
        has_widget_in(self.widgets@, id)
    }

    /// The base window is the first window added.
    pub open spec fn base_wf(&self) -> bool {
        self.windows@.len() > 0 ==> self.base_window == self.windows@[0].window.id
    }

    pub open spec fn scale_wf(&self) -> bool {
        match self.logical_scale {
            Option::Some(s) => s.wf(),
            Option::None => true,
        }
    }

    /// The arena's full well-formedness invariant; the constructor
    /// establishes it and every mutating method preserves it.
    pub open spec fn wf(&self) -> bool {
        &&& ids_unique_in(self.windows@, self.widgets@)
        &&& children_wf_in(self.windows@, self.widgets@)
        &&& rooted_in(self.windows@, self.widgets@)
        &&& geom_wf_in(self.windows@, self.widgets@)
        &&& self.base_wf()
        &&& self.scale_wf()
    }

    /// The arena starts empty; nothing is ever removed from it.
    pub fn new() -> (r: Self)
        ensures
            r.windows@.len() == 0,
            r.widgets@.len() == 0,
            r.base_window == 0,
            r.logical_scale is None,
            r.fixed_scale,
            r.wf(),
    {
        proof {
            reveal(win_children_linked);
            reveal(widget_children_linked);
            reveal(win_children_distinct);
            reveal(widget_children_distinct);
            reveal(rooted_in);
        }
        GUIBase {
            base_window: 0,
            windows: Vec::new(),
            widgets: Vec::new(),
            logical_scale: None,
            fixed_scale: true,
        }
    }

    /// Record the device's logical scale once the platform window exists.
    pub fn set_logical_scale(&mut self, scale: GUIScale)
        requires
            old(self).wf(),
            scale.wf(),
        ensures
            final(self).wf(),
            final(self).logical_scale == Some(scale),
            final(self).windows == old(self).windows,
            final(self).widgets == old(self).widgets,
            final(self).base_window == old(self).base_window,
            final(self).fixed_scale == old(self).fixed_scale,
    {
        self.logical_scale = Some(scale);
    }

    /// The device's logical scale, if it has been recorded.
    pub fn get_logical_scale(&self) -> (r: Option<GUIScale>)
        ensures
            r == self.logical_scale,
    {
        self.logical_scale
    }

    /// Whether contents keep their logical size on resize.
    pub fn get_fixed_scale(&self) -> (r: bool)
        ensures
            r == self.fixed_scale,
    {
        self.fixed_scale
    }

    /// The table index of window `id`, if the arena owns it.
    pub(crate) fn find_window(&self, id: u128) -> (r: Option<usize>)
        ensures
            match r {
                Some(i) => i < self.windows@.len() && self.windows@[i as int].window.id == id,
                None => !self.has_window(id),
            },
    {
        let mut i: usize = 0;
        while i < self.windows.len()
            invariant
                i <= self.windows@.len(),
                forall|k: int|
                    #![trigger self.windows@[k]]
                    0 <= k < i ==> self.windows@[k].window.id != id,
            decreases self.windows@.len() - i,
        {
            if self.windows[i].window.id == id {
                return Some(i);
            }
            i = i + 1;
        }
        None
    }

    /// The table index of widget `id`, if the arena owns it.
    pub(crate) fn find_widget(&self, id: u128) -> (r: Option<usize>)
        ensures
            match r {
                Some(i) => i < self.widgets@.len() && self.widgets@[i as int].widget.spec_id()
                    == id,
                None => !self.has_widget(id),
            },
    {
        let mut i: usize = 0;
        while i < self.widgets.len()
            invariant
                i <= self.widgets@.len(),
                forall|k: int|
                    #![trigger self.widgets@[k]]
                    0 <= k < i ==> self.widgets@[k].widget.spec_id() != id,
            decreases self.widgets@.len() - i,
        {
            if self.widgets[i].widget.get_id() == id {
                return Some(i);
            }
            i = i + 1;
        }
        None
    }

    /// The base window: the first window added, which under `wf` is the
    /// window the stored base id names.
    pub fn get_base_window(&self) -> (r: &GUIWindow)
        requires
            self.wf(),
            self.windows@.len() > 0,
        ensures
            *r == self.windows@[0].window,
            r.id == self.base_window,
    {
        &self.windows[0].window
    }

    /// Replace the base window's size (the resize path re-tessellates from
    /// this new size on the next frame).
    pub fn set_base_window_size(&mut self, new_size: GUISize)
        requires
            old(self).wf(),
            old(self).windows@.len() > 0,
            new_size.bounded(),
        ensures
            final(self).wf(),
            final(self).windows@.len() == old(self).windows@.len(),
            final(self).windows@[0].window == (GUIWindow {
                size: new_size,
                ..old(self).windows@[0].window
            }),
            final(self).windows@[0].children == old(self).windows@[0].children,
            forall|i: int|
                1 <= i < old(self).windows@.len() ==> final(self).windows@[i] == old(
                    self,
                ).windows@[i],
            final(self).widgets == old(self).widgets,
            final(self).base_window == old(self).base_window,
            final(self).logical_scale == old(self).logical_scale,
            final(self).fixed_scale == old(self).fixed_scale,
    {
        let mut gw = self.windows.remove(0);
        gw.window.size = new_size;
        self.windows.insert(0, gw);
        proof {
            assert(forall|i: int|
                1 <= i < old(self).windows@.len() ==> self.windows@[i] == old(self).windows@[i]);
            lemma_replace_window_wf(old(self).windows@, self.widgets@, self.windows@, 0);
        }
    }

    /// Add a window to the arena. The first window added becomes the base
    /// window.
    pub fn add_window(&mut self, window: GUIWindow) -> (window_id: u128)
        requires
            old(self).wf(),
            window.wf(),
            !old(self).has_window(window.id),
            !old(self).has_widget(window.id),
        ensures
            final(self).wf(),
            window_id == window.id,
            final(self).has_window(window.id),
            final(self).windows@.len() == old(self).windows@.len() + 1,
            forall|i: int|
                0 <= i < old(self).windows@.len() ==> final(self).windows@[i] == old(
                    self,
                ).windows@[i],
            final(self).windows@[old(self).windows@.len() as int].window == window,
            final(self).windows@[old(self).windows@.len() as int].children@.len() == 0,
            final(self).widgets == old(self).widgets,
            final(self).base_window == (if old(self).windows@.len() == 0 {
                window.id
            } else {
                old(self).base_window
            }),
            final(self).logical_scale == old(self).logical_scale,
            final(self).fixed_scale == old(self).fixed_scale,
    {
        if self.windows.len() == 0 {
            self.base_window = window.id;
        }
        let window_id = window.id;
        let gwindow = GWindow { window, children: Vec::new() };
        self.windows.push(gwindow);
        proof {
            lemma_add_window_wf(old(self).windows@, self.widgets@, self.windows@);
        }
        window_id
    }

    /// The widget the arena owns under `id`.
    pub fn get_widget(&self, id: u128) -> (r: &WidgetKind)
        requires
            self.wf(),
            self.has_widget(id),
        ensures
            r.spec_id() == id,
            *r == self.widgets@[widget_idx_of(self.widgets@, id)].widget,
    {
        proof {
            let w = widget_idx_of(self.widgets@, id);
            assert(0 <= w < self.widgets@.len() && self.widgets@[w].widget.spec_id() == id);
        }
        match self.find_widget(id) {
            Some(i) => &self.widgets[i].widget,
            None => {
                proof {
                    assert(false);
                }
                &self.widgets[0].widget
            },
        }
    }

    /// Add `child` to the arena as a child of the container `parent_id`
    /// names (a window or a widget); the child edge is assigned here, at
    /// insertion time.
    pub fn add_child_to_parent(&mut self, child: WidgetKind, parent_id: u128) -> (child_id: u128)
        requires
            old(self).wf(),
            child.wf(),
            !old(self).has_widget(child.spec_id()),
            !old(self).has_window(child.spec_id()),
            old(self).has_window(parent_id) || old(self).has_widget(parent_id),
        ensures
            final(self).wf(),
            child_id == child.spec_id(),
            final(self).has_widget(child_id),
            final(self).widgets@.len() == old(self).widgets@.len() + 1,
            final(self).widgets@[old(self).widgets@.len() as int].widget == child,
            final(self).widgets@[old(self).widgets@.len() as int].parent == parent_id,
            final(self).widgets@[old(self).widgets@.len() as int].children@.len() == 0,
            final(self).windows@.len() == old(self).windows@.len(),
            forall|i: int|
                0 <= i < old(self).windows@.len() ==> (#[trigger] final(self).windows@[i]).window
                    == old(self).windows@[i].window,
            forall|i: int|
                0 <= i < old(self).windows@.len() && old(self).windows@[i].window.id != parent_id
                    ==> (#[trigger] final(self).windows@[i]) == old(self).windows@[i],
            forall|i: int|
                0 <= i < old(self).windows@.len() && old(self).windows@[i].window.id == parent_id
                    ==> (#[trigger] final(self).windows@[i]).children@ == old(
                    self,
                ).windows@[i].children@.push(child.spec_id()),
            forall|i: int|
                0 <= i < old(self).widgets@.len() && old(self).widgets@[i].widget.spec_id()
                    != parent_id ==> (#[trigger] final(self).widgets@[i]) == old(self).widgets@[i],
            forall|i: int|
                0 <= i < old(self).widgets@.len() && old(self).widgets@[i].widget.spec_id()
                    == parent_id ==> (#[trigger] final(self).widgets@[i]).widget == old(
                    self,
                ).widgets@[i].widget && final(self).widgets@[i].parent == old(
                    self,
                ).widgets@[i].parent && final(self).widgets@[i].children@ == old(
                    self,
                ).widgets@[i].children@.push(child.spec_id()),
            final(self).base_window == old(self).base_window,
            final(self).logical_scale == old(self).logical_scale,
            final(self).fixed_scale == old(self).fixed_scale,
    {
        let child_id = child.get_id();
        if let Some(wi) = self.find_window(parent_id) {
            let mut gw = self.windows.remove(wi);
            gw.children.push(child_id);
            self.windows.insert(wi, gw);
            self.widgets.push(GWidget { widget: child, parent: parent_id, children: Vec::new() });
            proof {
                let ws0 = old(self).windows@;
                let ws1 = self.windows@;
                assert forall|i: int|
                    0 <= i < ws0.len() && i != wi implies #[trigger] ws1[i] == ws0[i] by {
                    if i < wi {
                        assert(ws0.remove(wi as int)[i] == ws0[i]);
                    } else {
                        assert(ws0.remove(wi as int)[i - 1] == ws0[i]);
                    }
                }
                lemma_add_child_win_wf(ws0, old(self).widgets@, ws1, self.widgets@, wi as int);
                assert forall|i: int|
                    0 <= i < ws0.len() && ws0[i].window.id == parent_id implies i == wi as int by {}
            }
            return child_id;
        }
        if let Some(pi) = self.find_widget(parent_id) {
            let mut gx = self.widgets.remove(pi);
            gx.children.push(child_id);
            self.widgets.insert(pi, gx);
            self.widgets.push(GWidget { widget: child, parent: parent_id, children: Vec::new() });
            proof {
                let xs0 = old(self).widgets@;
                let xs1 = self.widgets@;
                assert forall|i: int|
                    0 <= i < xs0.len() && i != pi implies #[trigger] xs1[i] == xs0[i] by {
                    if i < pi {
                        assert(xs0.remove(pi as int)[i] == xs0[i]);
                    } else {
                        assert(xs0.remove(pi as int)[i - 1] == xs0[i]);
                    }
                }
                lemma_add_child_widget_wf(self.windows@, xs0, xs1, pi as int);
                assert forall|i: int|
                    0 <= i < xs0.len() && xs0[i].widget.spec_id() == parent_id implies i
                        == pi as int by {}
            }
            return child_id;
        }
        proof {
            assert(false);
        }
        child_id
    }

    pub fn set_fixed_scale(&mut self, fixed: bool)
        requires
            old(self).wf(),
        ensures
            final(self).wf(),
            final(self).fixed_scale == fixed,
            final(self).windows == old(self).windows,
            final(self).widgets == old(self).widgets,
            final(self).base_window == old(self).base_window,
            final(self).logical_scale == old(self).logical_scale,
    {
        self.fixed_scale = fixed;
    }
}


/// Tree integrity: an id the arena owns is found by widget lookup, appears in
/// some parent's child list, and never in two lists or two slots: together,
/// every inserted widget id sits in exactly one parent's child list.
pub proof fn lemma_tree_integrity(base: GUIBase, id: u128)
    requires
        base.wf(),
        base.has_widget(id),
    ensures
        ({
            let w = widget_idx_of(base.widgets@, id);
            0 <= w < base.widgets@.len() && base.widgets@[w].widget.spec_id() == id
        }),
        (exists|j: int, c: int|
            #![trigger base.windows@[j].children@[c]]
            0 <= j < base.windows@.len() && 0 <= c < base.windows@[j].children@.len()
                && base.windows@[j].children@[c] == id) || (exists|j: int, c: int|
            #![trigger base.widgets@[j].children@[c]]
            0 <= j < base.widgets@.len() && 0 <= c < base.widgets@[j].children@.len()
                && base.widgets@[j].children@[c] == id),
        (forall|j1: int, c1: int, j2: int, c2: int|
            #![trigger base.windows@[j1].children@[c1], base.windows@[j2].children@[c2]]
            0 <= j1 < base.windows@.len() && 0 <= c1 < base.windows@[j1].children@.len()
                && base.windows@[j1].children@[c1] == id && 0 <= j2 < base.windows@.len() && 0 <= c2
                < base.windows@[j2].children@.len() && base.windows@[j2].children@[c2] == id ==> j1
                == j2 && c1 == c2),
        (forall|j1: int, c1: int, j2: int, c2: int|
            #![trigger base.widgets@[j1].children@[c1], base.widgets@[j2].children@[c2]]
            0 <= j1 < base.widgets@.len() && 0 <= c1 < base.widgets@[j1].children@.len()
                && base.widgets@[j1].children@[c1] == id && 0 <= j2 < base.widgets@.len() && 0 <= c2
                < base.widgets@[j2].children@.len() && base.widgets@[j2].children@[c2] == id ==> j1
                == j2 && c1 == c2),
        (forall|j1: int, c1: int, j2: int, c2: int|
            #![trigger base.windows@[j1].children@[c1], base.widgets@[j2].children@[c2]]
            0 <= j1 < base.windows@.len() && 0 <= c1 < base.windows@[j1].children@.len() && 0 <= j2
                < base.widgets@.len() && 0 <= c2 < base.widgets@[j2].children@.len() ==> !(
            base.windows@[j1].children@[c1] == id && base.widgets@[j2].children@[c2] == id)),
{
    let ws = base.windows@;
    let xs = base.widgets@;
    let w = widget_idx_of(xs, id);
    assert(0 <= w < xs.len() && xs[w].widget.spec_id() == id);
    assert((exists|j: int, c: int|
        #![trigger ws[j].children@[c]]
        0 <= j < ws.len() && 0 <= c < ws[j].children@.len() && ws[j].children@[c] == id) || (
    exists|j: int, c: int|
        #![trigger xs[j].children@[c]]
        0 <= j < xs.len() && 0 <= c < xs[j].children@.len() && xs[j].children@[c] == id)) by {
        reveal(rooted_in);
        let p = xs[w].parent;
        if exists|j: int|
            #![trigger ws[j]]
            0 <= j < ws.len() && ws[j].window.id == p && ws[j].children@.contains(id) {
            let j = choose|j: int|
                0 <= j < ws.len() && ws[j].window.id == p && ws[j].children@.contains(id);
            let c = choose|c: int| 0 <= c < ws[j].children@.len() && ws[j].children@[c] == id;
            assert(ws[j].children@[c] == id);
        } else {
            let j = choose|j: int|
                0 <= j < xs.len() && xs[j].widget.spec_id() == p && xs[j].children@.contains(id);
            let c = choose|c: int| 0 <= c < xs[j].children@.len() && xs[j].children@[c] == id;
            assert(xs[j].children@[c] == id);
        }
    }
    assert forall|j1: int, c1: int, j2: int, c2: int|
        #![trigger ws[j1].children@[c1], ws[j2].children@[c2]]
        0 <= j1 < ws.len() && 0 <= c1 < ws[j1].children@.len() && ws[j1].children@[c1] == id && 0
            <= j2 < ws.len() && 0 <= c2 < ws[j2].children@.len() && ws[j2].children@[c2]
            == id implies j1 == j2 && c1 == c2 by {
        reveal(win_children_linked);
        reveal(win_children_distinct);
        assert(linked_to(xs, id, ws[j1].window.id, -1));
        assert(linked_to(xs, id, ws[j2].window.id, -1));
        let w1 = choose|w1: int|
            0 <= w1 < xs.len() && xs[w1].widget.spec_id() == id && xs[w1].parent
                == ws[j1].window.id && w1 > -1;
        let w2 = choose|w2: int|
            0 <= w2 < xs.len() && xs[w2].widget.spec_id() == id && xs[w2].parent
                == ws[j2].window.id && w2 > -1;
        assert(w1 == w2);
        assert(ws[j1].window.id == ws[j2].window.id);
        assert(j1 == j2);
    }
    assert forall|j1: int, c1: int, j2: int, c2: int|
        #![trigger xs[j1].children@[c1], xs[j2].children@[c2]]
        0 <= j1 < xs.len() && 0 <= c1 < xs[j1].children@.len() && xs[j1].children@[c1] == id && 0
            <= j2 < xs.len() && 0 <= c2 < xs[j2].children@.len() && xs[j2].children@[c2]
            == id implies j1 == j2 && c1 == c2 by {
        reveal(widget_children_linked);
        reveal(widget_children_distinct);
        assert(linked_to(xs, id, xs[j1].widget.spec_id(), j1));
        assert(linked_to(xs, id, xs[j2].widget.spec_id(), j2));
        let w1 = choose|w1: int|
            0 <= w1 < xs.len() && xs[w1].widget.spec_id() == id && xs[w1].parent
                == xs[j1].widget.spec_id() && w1 > j1;
        let w2 = choose|w2: int|
            0 <= w2 < xs.len() && xs[w2].widget.spec_id() == id && xs[w2].parent
                == xs[j2].widget.spec_id() && w2 > j2;
        assert(w1 == w2);
        assert(xs[j1].widget.spec_id() == xs[j2].widget.spec_id());
        assert(j1 == j2);
    }
    assert forall|j1: int, c1: int, j2: int, c2: int|
        #![trigger ws[j1].children@[c1], xs[j2].children@[c2]]
        0 <= j1 < ws.len() && 0 <= c1 < ws[j1].children@.len() && 0 <= j2 < xs.len() && 0 <= c2
            < xs[j2].children@.len() implies !(ws[j1].children@[c1] == id && xs[j2].children@[c2]
            == id) by {
        reveal(win_children_linked);
        reveal(widget_children_linked);
        if ws[j1].children@[c1] == id && xs[j2].children@[c2] == id {
            assert(linked_to(xs, id, ws[j1].window.id, -1));
            assert(linked_to(xs, id, xs[j2].widget.spec_id(), j2));
            let w1 = choose|w1: int|
                0 <= w1 < xs.len() && xs[w1].widget.spec_id() == id && xs[w1].parent
                    == ws[j1].window.id && w1 > -1;
            let w2 = choose|w2: int|
                0 <= w2 < xs.len() && xs[w2].widget.spec_id() == id && xs[w2].parent
                    == xs[j2].widget.spec_id() && w2 > j2;
            assert(w1 == w2);
            assert(ws[j1].window.id == xs[j2].widget.spec_id());
            assert(false);
        }
    }
}

} // verus!
