//! The tree of panes, each of which shows a buffer.

use crate::buffer::{AbsChar, Buffer, BufferId};
use crate::state::BufferMap;
use crate::rope::AbsLine;
use crate::util::make_id;
use vstd::prelude::*;

verus! {

#[derive(Debug, PartialEq, Eq, Hash)]
pub struct PaneId(String);

impl View for PaneId {
    type V = Seq<char>;

    closed spec fn view(&self) -> Seq<char> {
        self.0@
    }
}

impl Clone for PaneId {
    fn clone(&self) -> (res: Self)
        ensures
            res == *self,
    {
        PaneId(self.0.clone())
    }
}

impl PaneId {
    /// A fresh identifier: "pane-" followed by eight random ASCII letters
    /// or digits.
    pub fn new() -> (res: Self)
        ensures
            res@.len() == 13,
            res@.take(5) == seq!['p', 'a', 'n', 'e', '-'],
            forall|i: int| 5 <= i < 13 ==> crate::util::is_ascii_alphanumeric(#[trigger] res@[i]),
    {
        let id = make_id("pane");
        proof {
            reveal_strlit("pane");
            assert("pane"@.len() == 4);
        }
        assert(id@.take(5) =~= seq!['p', 'a', 'n', 'e', '-']) by {
            assert(id@.take(4) == "pane"@);
        }
        PaneId(id)
    }

    pub fn from_string(s: String) -> (res: Self)
        ensures
            res@ == s@,
    {
        PaneId(s)
    }

    pub fn as_str(&self) -> (res: &str)
        ensures
            res@ == self@,
    {
        self.0.as_str()
    }

    /// Whether two identifiers are the same.
    pub fn same(&self, other: &PaneId) -> (res: bool)
        ensures
            res == (self@ == other@),
    {
        self.0 == other.0
    }
}

#[derive(Debug, Clone, Copy, PartialEq, Eq, Structural)]
pub enum Orientation {
    Horizontal,
    Vertical,
}

pub struct Pane {
    id: PaneId,
    buffer_id: BufferId,
    top_line: AbsLine,
    is_active: bool,
    show_info_bar: bool,
    is_cursor_visible: bool,
}

impl Clone for Pane {
    fn clone(&self) -> (res: Self)
        ensures
            res == *self,
    {
        Pane {
            id: self.id.clone(),
            buffer_id: self.buffer_id.clone(),
            top_line: self.top_line,
            is_active: self.is_active,
            show_info_bar: self.show_info_bar,
            is_cursor_visible: self.is_cursor_visible,
        }
    }
}

impl Pane {
    pub closed spec fn pid(&self) -> Seq<char> {
        self.id@
    }

    pub closed spec fn bid(&self) -> Seq<char> {
        self.buffer_id@
    }

    pub closed spec fn top(&self) -> usize {
        self.top_line.0
    }

    pub closed spec fn active_flag(&self) -> bool {
        self.is_active
    }

    pub closed spec fn info_bar(&self) -> bool {
        self.show_info_bar
    }

    pub closed spec fn cursor_visible(&self) -> bool {
        self.is_cursor_visible
    }

    /// Create a one-off pane for use in a widget (e.g. open_file).
    pub fn create_for_widget(buffer_id: BufferId) -> (res: Self)
        ensures
            res.pid().len() == 13,
            res.bid() == buffer_id@,
            res.top() == 0,
            res.active_flag(),
            !res.info_bar(),
            res.cursor_visible(),
    {
        Pane {
            id: PaneId::new(),
            buffer_id,
            top_line: AbsLine::zero(),
            is_active: true,
            show_info_bar: false,
            is_cursor_visible: true,
        }
    }

    /// A pane with all its fields given; used to rebuild persisted panes.
    pub fn from_parts(
        id: PaneId,
        buffer_id: BufferId,
        top_line: AbsLine,
        is_active: bool,
        show_info_bar: bool,
        is_cursor_visible: bool,
    ) -> (res: Self)
        ensures
            res.pid() == id@,
            res.bid() == buffer_id@,
            res.top() == top_line.0,
            res.active_flag() == is_active,
            res.info_bar() == show_info_bar,
            res.cursor_visible() == is_cursor_visible,
    {
        Pane { id, buffer_id, top_line, is_active, show_info_bar, is_cursor_visible }
    }

    pub fn id(&self) -> (res: &PaneId)
        ensures
            res@ == self.pid(),
    {
        &self.id
    }

    pub fn buffer_id(&self) -> (res: &BufferId)
        ensures
            res@ == self.bid(),
    {
        &self.buffer_id
    }

    pub fn top_line(&self) -> (res: AbsLine)
        ensures
            res.0 == self.top(),
    {
        self.top_line
    }

    pub fn set_top_line(&mut self, top_line: AbsLine)
        ensures
            final(self).top() == top_line.0,
            final(self).pid() == old(self).pid(),
            final(self).bid() == old(self).bid(),
            final(self).active_flag() == old(self).active_flag(),
            final(self).info_bar() == old(self).info_bar(),
            final(self).cursor_visible() == old(self).cursor_visible(),
    {
        self.top_line = top_line;
    }

    pub fn is_active(&self) -> (res: bool)
        ensures
            res == self.active_flag(),
    {
        self.is_active
    }

    pub fn show_info_bar(&self) -> (res: bool)
        ensures
            res == self.info_bar(),
    {
        self.show_info_bar
    }

    pub fn is_cursor_visible(&self) -> (res: bool)
        ensures
            res == self.cursor_visible(),
    {
        self.is_cursor_visible
    }
}


impl Pane {
    /// Show buffer `new_buf_id` in this pane: the pane's cursor leaves the
    /// buffer shown so far, if it is open, and starts at the beginning of
    /// the new one.
    pub fn switch_buffer(&mut self, buffers: &mut BufferMap, new_buf_id: &BufferId)
        requires
            old(buffers).wf(),
            old(buffers)@.dom().contains(new_buf_id@),
        ensures
            *final(self) == old(self).with_buffer(*new_buf_id),
            final(self).pid() == old(self).pid(),
            final(self).bid() == new_buf_id@,
            final(self).top() == old(self).top(),
            final(self).active_flag() == old(self).active_flag(),
            final(self).info_bar() == old(self).info_bar(),
            final(self).cursor_visible() == old(self).cursor_visible(),
            final(buffers).wf(),
            final(buffers)@.dom() == old(buffers)@.dom(),
            forall|k: Seq<char>|
                #[trigger] old(buffers)@.dom().contains(k) && k != old(self).bid() && k != new_buf_id@
                    ==> final(buffers)@[k] == old(buffers)@[k],
            old(self).bid() != new_buf_id@ ==> {
                &&& old(buffers)@.dom().contains(old(self).bid()) ==> final(buffers)@[old(
                    self,
                ).bid()].cursor_removed_from(&old(buffers)@[old(self).bid()], old(self).pid())
                &&& final(buffers)@[new_buf_id@].cursor_set_from(
                    &old(buffers)@[new_buf_id@],
                    old(self).pid(),
                    AbsChar(0),
                )
            },
            old(self).bid() == new_buf_id@ ==> exists|mid: Buffer|
                #[trigger] mid.cursor_removed_from(&old(buffers)@[new_buf_id@], old(self).pid())
                    && final(buffers)@[new_buf_id@].cursor_set_from(&mid, old(self).pid(), AbsChar(0)),
    {
        proof {
            old(buffers).lemma_wf();
        }
        let ghost b0 = buffers@;
        match buffers.remove(&self.buffer_id) {
            Some(mut old_buf) => {
                old_buf.remove_cursor(self);
                buffers.insert(old_buf);
            },
            None => {},
        }
        let ghost b1 = buffers@;
        proof {
            buffers.lemma_wf();
        }
        let mut new_buf = buffers.remove(new_buf_id).unwrap();
        let ghost mid = new_buf;
        new_buf.set_cursor(&self.id, AbsChar(0));
        buffers.insert(new_buf);
        self.buffer_id = new_buf_id.clone();
        proof {
            assert(buffers@.dom() =~= old(buffers)@.dom());
            if old(self).bid() == new_buf_id@ {
                assert(mid.cursor_removed_from(&old(buffers)@[new_buf_id@], old(self).pid()));
            }
        }
    }

    /// The pane showing buffer `b`, the rest unchanged.
    pub closed spec fn with_buffer(self, b: BufferId) -> Pane {
        Pane { buffer_id: b, ..self }
    }

    /// The pane with its active flag set to `b`.
    pub closed spec fn with_active(self, b: bool) -> Pane {
        Pane { is_active: b, ..self }
    }
}

// ---------------------------------------------------------------------
// The tree

/// A node that lays out its children side by side or one above another.
pub struct Internal {
    pub orientation: Orientation,
    pub children: Vec<Node>,
}

pub enum Node {
    Internal(Internal),
    Leaf(Pane),
}

/// The shape of a pane tree: leaves are panes, internal nodes lay out
/// their children in one orientation.
pub enum TreeView {
    Leaf(Pane),
    Internal(Orientation, Seq<TreeView>),
}

pub closed spec fn node_view(n: Node) -> TreeView
    decreases n,
{
    match n {
        Node::Leaf(p) => TreeView::Leaf(p),
        Node::Internal(i) => TreeView::Internal(i.orientation, children_view(i.children@)),
    }
}

pub closed spec fn children_view(cs: Seq<Node>) -> Seq<TreeView>
    decreases cs,
{
    if cs.len() == 0 {
        Seq::empty()
    } else {
        seq![node_view(cs[0])] + children_view(cs.drop_first())
    }
}

/// The layout of a tree: how it nests and in which orientations, without
/// the panes.
pub enum Layout {
    Pane,
    Split(Orientation, Seq<Layout>),
}

/// The layout of `t`.
pub open spec fn layout_of(t: TreeView) -> Layout
    decreases t,
{
    match t {
        TreeView::Leaf(_) => Layout::Pane,
        TreeView::Internal(o, cs) => Layout::Split(o, layouts_of(cs)),
    }
}

/// The layouts of `cs`, in order.
pub open spec fn layouts_of(cs: Seq<TreeView>) -> Seq<Layout>
    decreases cs,
{
    if cs.len() == 0 {
        Seq::empty()
    } else {
        seq![layout_of(cs[0])] + layouts_of(cs.drop_first())
    }
}

/// Children whose layouts agree one by one give the same layouts.
proof fn lemma_same_layouts(a: Seq<Node>, b: Seq<Node>)
    requires
        a.len() == b.len(),
        forall|j: int| 0 <= j < a.len() ==> layout_of(node_view(#[trigger] a[j])) == layout_of(node_view(b[j])),
    ensures
        layouts_of(children_view(a)) == layouts_of(children_view(b)),
    decreases a.len(),
{
    if a.len() > 0 {
        assert forall|j: int| 0 <= j < a.drop_first().len() implies layout_of(
            node_view(#[trigger] a.drop_first()[j]),
        ) == layout_of(node_view(b.drop_first()[j])) by {
            assert(a.drop_first()[j] == a[j + 1]);
            assert(b.drop_first()[j] == b[j + 1]);
        }
        lemma_same_layouts(a.drop_first(), b.drop_first());
        let ca = children_view(a);
        let cb = children_view(b);
        assert(ca[0] == node_view(a[0]));
        assert(cb[0] == node_view(b[0]));
        assert(ca.drop_first() =~= children_view(a.drop_first()));
        assert(cb.drop_first() =~= children_view(b.drop_first()));
        assert(layout_of(ca[0]) == layout_of(node_view(a[0])));
        assert(layout_of(node_view(a[0])) == layout_of(node_view(b[0])));
    }
}

/// The panes of a tree, left to right.
pub open spec fn tree_leaves(t: TreeView) -> Seq<Pane>
    decreases t,
{
    match t {
        TreeView::Leaf(p) => seq![p],
        TreeView::Internal(_, cs) => seq_leaves(cs),
    }
}

/// The panes of a sequence of trees, left to right.
pub open spec fn seq_leaves(cs: Seq<TreeView>) -> Seq<Pane>
    decreases cs,
{
    if cs.len() == 0 {
        Seq::empty()
    } else {
        tree_leaves(cs[0]) + seq_leaves(cs.drop_first())
    }
}

/// Some pane of `ps` is active.
pub open spec fn some_active(ps: Seq<Pane>) -> bool {
    exists|i: int| 0 <= i < ps.len() && (#[trigger] ps[i]).active_flag()
}

/// Exactly one pane of `ps` is active.
pub open spec fn one_active(ps: Seq<Pane>) -> bool {
    &&& some_active(ps)
    &&& forall|i: int, j: int|
        0 <= i < ps.len() && 0 <= j < ps.len() && (#[trigger] ps[i]).active_flag()
            && (#[trigger] ps[j]).active_flag() ==> i == j
}

/// No two panes of `ps` share an identifier.
pub open spec fn unique_ids(ps: Seq<Pane>) -> bool {
    forall|i: int, j: int|
        0 <= i < ps.len() && 0 <= j < ps.len() && i != j ==> (#[trigger] ps[i]).pid() != (
        #[trigger] ps[j]).pid()
}

proof fn lemma_children_view(cs: Seq<Node>)
    ensures
        children_view(cs).len() == cs.len(),
        forall|i: int| 0 <= i < cs.len() ==> #[trigger] children_view(cs)[i] == node_view(cs[i]),
    decreases cs.len(),
{
    if cs.len() > 0 {
        lemma_children_view(cs.drop_first());
        assert forall|i: int| 0 <= i < cs.len() implies #[trigger] children_view(cs)[i] == node_view(
            cs[i],
        ) by {
            if i > 0 {
                assert(cs.drop_first()[i - 1] == cs[i]);
            }
        }
    }
}

proof fn lemma_children_view_take(cs: Seq<Node>, i: int)
    requires
        0 <= i < cs.len(),
    ensures
        children_view(cs.take(i + 1)) == children_view(cs.take(i)).push(node_view(cs[i])),
{
    lemma_children_view(cs.take(i + 1));
    lemma_children_view(cs.take(i));
    assert(children_view(cs.take(i + 1)) =~= children_view(cs.take(i)).push(node_view(cs[i])));
}

/// The panes of two sequences of trees, one after the other.
pub proof fn lemma_seq_leaves_concat(a: Seq<TreeView>, b: Seq<TreeView>)
    ensures
        seq_leaves(a + b) == seq_leaves(a) + seq_leaves(b),
    decreases a.len(),
{
    if a.len() == 0 {
        assert(a + b =~= b);
    } else {
        lemma_seq_leaves_concat(a.drop_first(), b);
        assert((a + b).drop_first() =~= a.drop_first() + b);
        assert((a + b)[0] == a[0]);
        assert(tree_leaves(a[0]) + (seq_leaves(a.drop_first()) + seq_leaves(b)) =~= (tree_leaves(
            a[0],
        ) + seq_leaves(a.drop_first())) + seq_leaves(b));
    }
}

proof fn lemma_seq_leaves_one(t: TreeView)
    ensures
        seq_leaves(seq![t]) == tree_leaves(t),
{
    assert(seq![t].drop_first() =~= Seq::<TreeView>::empty());
    assert(seq_leaves(Seq::<TreeView>::empty()) == Seq::<Pane>::empty());
    assert(seq![t][0] == t);
    assert(tree_leaves(t) + Seq::<Pane>::empty() =~= tree_leaves(t));
}

impl Node {
    /// The panes of this subtree, left to right.
    pub fn panes(&self) -> (res: Vec<&Pane>)
        ensures
            res@.map_values(|p: &Pane| *p) == tree_leaves(node_view(*self)),
        decreases *self,
    {
        match self {
            Node::Leaf(pane) => {
                let mut v: Vec<&Pane> = Vec::new();
                v.push(pane);
                assert(v@.map_values(|p: &Pane| *p) =~= seq![*pane]);
                v
            },
            Node::Internal(internal) => {
                let mut res: Vec<&Pane> = Vec::new();
                let mut i: usize = 0;
                proof {
                    assert(internal.children@.take(0) =~= Seq::<Node>::empty());
                    assert(res@.map_values(|p: &Pane| *p) =~= Seq::<Pane>::empty());
                }
                while i < internal.children.len()
                    invariant
                        *self is Internal,
                        self->Internal_0 == *internal,
                        i <= internal.children@.len(),
                        res@.map_values(|p: &Pane| *p) == seq_leaves(
                            children_view(internal.children@.take(i as int)),
                        ),
                    decreases internal.children@.len() - i,
                {
                    proof {
                        assert(decreases_to!(*self => self->Internal_0));
                        assert(decreases_to!(*internal => internal.children));
                        assert(decreases_to!(internal.children => internal.children@));
                        assert(decreases_to!(internal.children@ => internal.children@[i as int]));
                    }
                    let mut sub = internal.children[i].panes();
                    proof {
                        lemma_children_view_take(internal.children@, i as int);
                        assert(children_view(internal.children@.take(i as int)).push(
                            node_view(internal.children@[i as int]),
                        ) =~= children_view(internal.children@.take(i as int)) + seq![
                            node_view(internal.children@[i as int]),
                        ]);
                        lemma_seq_leaves_concat(
                            children_view(internal.children@.take(i as int)),
                            seq![node_view(internal.children@[i as int])],
                        );
                        lemma_seq_leaves_one(node_view(internal.children@[i as int]));
                    }
                    let ghost before = res@;
                    res.append(&mut sub);
                    assert(res@.map_values(|p: &Pane| *p) =~= before.map_values(|p: &Pane| *p)
                        + tree_leaves(node_view(internal.children@[i as int])));
                    i = i + 1;
                }
                proof {
                    assert(internal.children@.take(internal.children@.len() as int)
                        =~= internal.children@);
                }
                res
            },
        }
    }
}


/// Index of the first active pane of `ps`; its length when none is.
pub open spec fn first_active(ps: Seq<Pane>) -> int
    decreases ps.len(),
{
    if ps.len() == 0 {
        0
    } else if ps[0].active_flag() {
        0
    } else {
        1 + first_active(ps.drop_first())
    }
}

/// The first active pane is the active one that only inactive panes
/// precede.
pub proof fn lemma_first_active_at(ps: Seq<Pane>, i: int)
    requires
        0 <= i < ps.len(),
        ps[i].active_flag(),
        forall|j: int| 0 <= j < i ==> !(#[trigger] ps[j]).active_flag(),
    ensures
        first_active(ps) == i,
        some_active(ps),
{
    lemma_first_active(ps);
    assert(some_active(ps));
}

pub proof fn lemma_first_active(ps: Seq<Pane>)
    ensures
        0 <= first_active(ps) <= ps.len(),
        forall|j: int| 0 <= j < first_active(ps) ==> !(#[trigger] ps[j]).active_flag(),
        first_active(ps) < ps.len() ==> ps[first_active(ps)].active_flag(),
        some_active(ps) <==> first_active(ps) < ps.len(),
    decreases ps.len(),
{
    if ps.len() > 0 {
        lemma_first_active(ps.drop_first());
        if !ps[0].active_flag() {
            assert forall|j: int| 0 <= j < first_active(ps) implies !(#[trigger] ps[j]).active_flag() by {
                if j > 0 {
                    assert(ps[j] == ps.drop_first()[j - 1]);
                }
            }
            if some_active(ps) {
                let i = choose|i: int| 0 <= i < ps.len() && (#[trigger] ps[i]).active_flag();
                assert(ps.drop_first()[i - 1] == ps[i]);
            }
            if first_active(ps) < ps.len() {
                assert(ps[first_active(ps)] == ps.drop_first()[first_active(ps) - 1]);
            }
        } else {
            assert(ps[0].active_flag());
        }
    } else {
        assert(!some_active(ps));
    }
}

/// A change to the active flags of every pane, or to one pane, by the
/// pane's position among all panes.
enum LeafEdit {
    /// Make active exactly the panes with this identifier.
    ActivateId(PaneId),
    /// Make active exactly the pane at this position.
    ActivateIndex(usize),
    /// Replace the pane at this position.
    Replace(usize, Pane),
}

spec fn edited(p: Pane, i: int, e: LeafEdit) -> Pane {
    match e {
        LeafEdit::ActivateId(id) => p.with_active(p.pid() == id@),
        LeafEdit::ActivateIndex(k) => p.with_active(i == k),
        LeafEdit::Replace(k, q) => if i == k {
            q
        } else {
            p
        },
    }
}

proof fn lemma_children_view_split(cs: Seq<Node>, i: int)
    requires
        0 <= i <= cs.len(),
    ensures
        children_view(cs) == children_view(cs.take(i)) + children_view(cs.skip(i)),
{
    lemma_children_view(cs);
    lemma_children_view(cs.take(i));
    lemma_children_view(cs.skip(i));
    assert(children_view(cs) =~= children_view(cs.take(i)) + children_view(cs.skip(i)));
}

impl Node {
    /// Apply `e` to each pane of this subtree; its first pane is at
    /// position `offset` among all panes. Returns the number of panes.
    fn edit_leaves(&mut self, offset: usize, e: &LeafEdit) -> (n: usize)
        requires
            offset + tree_leaves(node_view(*old(self))).len() <= usize::MAX,
        ensures
            n == tree_leaves(node_view(*old(self))).len(),
            tree_leaves(node_view(*final(self))).len() == n,
            forall|t: int|
                0 <= t < n ==> #[trigger] tree_leaves(node_view(*final(self)))[t] == edited(
                    tree_leaves(node_view(*old(self)))[t],
                    offset + t,
                    *e,
                ),
            layout_of(node_view(*final(self))) == layout_of(node_view(*old(self))),
        decreases *old(self),
    {
        match self {
            Node::Leaf(pane) => {
                match e {
                    LeafEdit::ActivateId(id) => {
                        pane.is_active = pane.id.same(id);
                    },
                    LeafEdit::ActivateIndex(k) => {
                        pane.is_active = offset == *k;
                    },
                    LeafEdit::Replace(k, q) => {
                        if offset == *k {
                            *pane = q.clone();
                        }
                    },
                }
                1
            },
            Node::Internal(internal) => {
                let ghost old_cs = internal.children@;
                let mut i: usize = 0;
                let mut count: usize = 0;
                proof {
                    lemma_children_view_split(old_cs, 0);
                    assert(old_cs.take(0) =~= Seq::<Node>::empty());
                    assert(old_cs.skip(0) =~= old_cs);
                    assert(seq_leaves(children_view(Seq::<Node>::empty())) == Seq::<Pane>::empty());
                }
                while i < internal.children.len()
                    invariant
                        *old(self) is Internal,
                        old(self)->Internal_0.children@ == old_cs,
                        internal.orientation == old(self)->Internal_0.orientation,
                        forall|j: int|
                            0 <= j < i ==> layout_of(node_view(#[trigger] internal.children@[j]))
                                == layout_of(node_view(old_cs[j])),
                        internal.children@.len() == old_cs.len(),
                        i <= old_cs.len(),
                        forall|j: int| i <= j < old_cs.len() ==> #[trigger] internal.children@[j] == old_cs[j],
                        count == seq_leaves(children_view(old_cs.take(i as int))).len(),
                        offset + seq_leaves(children_view(old_cs)).len() <= usize::MAX,
                        seq_leaves(children_view(old_cs)) == seq_leaves(children_view(old_cs.take(i as int)))
                            + seq_leaves(children_view(old_cs.skip(i as int))),
                        seq_leaves(children_view(internal.children@.take(i as int))).len() == count,
                        forall|t: int|
                            0 <= t < count ==> #[trigger] seq_leaves(
                                children_view(internal.children@.take(i as int)),
                            )[t] == edited(
                                seq_leaves(children_view(old_cs.take(i as int)))[t],
                                offset + t,
                                *e,
                            ),
                    decreases old_cs.len() - i,
                {
                    proof {
                        assert(decreases_to!(*old(self) => old(self)->Internal_0));
                        assert(decreases_to!(old(self)->Internal_0 => old(self)->Internal_0.children));
                        assert(decreases_to!(old(self)->Internal_0.children => old_cs));
                        assert(decreases_to!(old_cs => old_cs[i as int]));
                        lemma_children_view_take(old_cs, i as int);
                        lemma_children_view_split(old_cs, i as int + 1);
                        lemma_seq_leaves_concat(
                            children_view(old_cs.take(i as int)),
                            seq![node_view(old_cs[i as int])],
                        );
                        lemma_seq_leaves_concat(
                            children_view(old_cs.take(i as int + 1)),
                            children_view(old_cs.skip(i as int + 1)),
                        );
                        lemma_seq_leaves_one(node_view(old_cs[i as int]));
                        assert(children_view(old_cs.take(i as int)).push(node_view(old_cs[i as int]))
                            =~= children_view(old_cs.take(i as int)) + seq![node_view(old_cs[i as int])]);
                    }
                    let ghost before = internal.children@;
                    let c = internal.children[i].edit_leaves(offset + count, e);
                    let ghost after = internal.children@;
                    proof {
                        assert(after =~= before.update(i as int, after[i as int]));
                        assert(after.take(i as int) =~= before.take(i as int));
                        lemma_children_view_take(after, i as int);
                        lemma_seq_leaves_concat(
                            children_view(after.take(i as int)),
                            seq![node_view(after[i as int])],
                        );
                        lemma_seq_leaves_one(node_view(after[i as int]));
                        assert(children_view(after.take(i as int)).push(node_view(after[i as int]))
                            =~= children_view(after.take(i as int)) + seq![node_view(after[i as int])]);
                        assert(old_cs.take(i as int + 1) =~= old_cs.take(i as int).push(old_cs[i as int]));
                    }
                    count = count + c;
                    i = i + 1;
                }
                proof {
                    assert(internal.children@.take(i as int) =~= internal.children@);
                    assert(old_cs.take(i as int) =~= old_cs);
                    lemma_same_layouts(internal.children@, old_cs);
                }
                count
            },
        }
    }
}


pub struct PaneTree {
    root: Node,
}

impl PaneTree {
    /// The shape of the tree.
    pub closed spec fn tree(&self) -> TreeView {
        node_view(self.root)
    }

    /// The panes, left to right.
    pub closed spec fn leaves(&self) -> Seq<Pane> {
        tree_leaves(node_view(self.root))
    }

    /// The tree has a pane and one of its panes is active.
    pub open spec fn wf(&self) -> bool {
        &&& self.leaves().len() > 0
        &&& some_active(self.leaves())
    }

    /// Position of the active pane.
    pub open spec fn active_pos(&self) -> int {
        first_active(self.leaves())
    }

    /// A tree of one pane, active and showing `initial_buffer`, whose
    /// cursor there is set to the start.
    pub fn new(initial_buffer: &mut Buffer) -> (res: Self)
        requires
            old(initial_buffer).wf(),
        ensures
            res.wf(),
            res.leaves().len() == 1,
            res.tree() == TreeView::Leaf(res.leaves()[0]),
            res.leaves()[0].active_flag(),
            res.leaves()[0].bid() == old(initial_buffer).buffer_id(),
            res.leaves()[0].top() == 0,
            res.leaves()[0].info_bar(),
            res.leaves()[0].cursor_visible(),
            res.leaves()[0].pid().len() == 13,
            final(initial_buffer).cursor_set_from(
                old(initial_buffer),
                res.leaves()[0].pid(),
                AbsChar(0),
            ),
    {
        let initial_pane = Pane {
            id: PaneId::new(),
            buffer_id: initial_buffer.id().clone(),
            top_line: AbsLine::zero(),
            is_active: true,
            show_info_bar: true,
            is_cursor_visible: true,
        };
        initial_buffer.set_cursor(initial_pane.id(), AbsChar(0));
        let res = PaneTree { root: Node::Leaf(initial_pane) };
        assert(res.leaves()[0].active_flag());
        res
    }

    /// A tree loaded from persisted state: of its panes only the first
    /// active one stays active, and the first pane becomes active when
    /// none is.
    pub fn from_root(root: Node) -> (res: Self)
        requires
            tree_leaves(node_view(root)).len() > 0,
        ensures
            res.wf(),
            one_active(res.leaves()),
            layout_of(res.tree()) == layout_of(node_view(root)),
            res.leaves().len() == tree_leaves(node_view(root)).len(),
            forall|i: int|
                0 <= i < res.leaves().len() ==> #[trigger] res.leaves()[i] == tree_leaves(
                    node_view(root),
                )[i].with_active(
                    i == (if some_active(tree_leaves(node_view(root))) {
                        first_active(tree_leaves(node_view(root)))
                    } else {
                        0
                    }),
                ),
    {
        let mut tree = PaneTree { root };
        tree.cleanup_after_load();
        tree
    }

    /// The root node.
    pub fn root(&self) -> (res: &Node)
        ensures
            node_view(*res) == self.tree(),
    {
        &self.root
    }

    /// Make active only the first active pane, or the first pane when
    /// none is active.
    fn cleanup_after_load(&mut self)
        requires
            old(self).leaves().len() > 0,
        ensures
            final(self).wf(),
            one_active(final(self).leaves()),
            layout_of(final(self).tree()) == layout_of(old(self).tree()),
            final(self).leaves().len() == old(self).leaves().len(),
            forall|i: int|
                0 <= i < old(self).leaves().len() ==> #[trigger] final(self).leaves()[i]
                    == old(self).leaves()[i].with_active(
                    i == (if some_active(old(self).leaves()) {
                        first_active(old(self).leaves())
                    } else {
                        0
                    }),
                ),
    {
        let panes = self.root.panes();
        let n = panes.len();
        let mut k: usize = 0;
        let mut found = false;
        while k < n && !found
            invariant
                n == panes@.len(),
                panes@.map_values(|p: &Pane| *p) == old(self).leaves(),
                k <= n,
                found ==> k < n && panes@[k as int].active_flag(),
                forall|j: int| 0 <= j < k ==> !(#[trigger] panes@[j]).active_flag(),
            decreases n - k + (if found { 0int } else { 1int }),
        {
            if panes[k].is_active() {
                found = true;
            } else {
                k = k + 1;
            }
        }
        let ghost ps = old(self).leaves();
        proof {
            lemma_first_active(ps);
            assert forall|j: int| 0 <= j < k implies !(#[trigger] ps[j]).active_flag() by {
                assert(ps[j] == *panes@[j]);
            }
            if found {
                assert(ps[k as int] == *panes@[k as int]);
                if first_active(ps) < k {
                    assert(!ps[first_active(ps)].active_flag());
                }
            } else {
                assert forall|j: int| 0 <= j < ps.len() implies !(#[trigger] ps[j]).active_flag() by {
                    assert(ps[j] == *panes@[j]);
                }
            }
        }
        let target = if found {
            k
        } else {
            0
        };
        let e = LeafEdit::ActivateIndex(target);
        self.root.edit_leaves(0, &e);
        proof {
            let fl = self.leaves();
            assert forall|i: int| 0 <= i < fl.len() implies (#[trigger] fl[i]).active_flag() == (i
                == target) by {
                assert(fl[i] == ps[i].with_active(i == target));
            }
            assert(fl[target as int].active_flag());
        }
    }

    /// The panes, left to right.
    pub fn panes(&self) -> (res: Vec<&Pane>)
        ensures
            res@.map_values(|p: &Pane| *p) == self.leaves(),
    {
        self.root.panes()
    }

    /// Position of the active pane among the panes.
    pub fn active_index(&self) -> (res: usize)
        requires
            self.wf(),
        ensures
            res == self.active_pos(),
            res < self.leaves().len(),
            self.leaves()[res as int].active_flag(),
    {
        let panes = self.root.panes();
        let ghost ps = self.leaves();
        proof {
            lemma_first_active(ps);
        }
        let mut k: usize = 0;
        while k < panes.len()
            invariant
                ps == self.leaves(),
                panes@.map_values(|p: &Pane| *p) == ps,
                k <= first_active(ps),
                first_active(ps) < ps.len(),
                ps[first_active(ps)].active_flag(),
                forall|j: int| 0 <= j < first_active(ps) ==> !(#[trigger] ps[j]).active_flag(),
            decreases panes@.len() - k,
        {
            assert(ps[k as int] == *panes@[k as int]);
            if panes[k].is_active() {
                return k;
            }
            k = k + 1;
        }
        k
    }

    /// The active pane: the first active one.
    pub fn active(&self) -> (res: &Pane)
        requires
            self.wf(),
        ensures
            *res == self.leaves()[self.active_pos()],
    {
        let i = self.active_index();
        let panes = self.root.panes();
        assert(*panes@[i as int] == self.leaves()[i as int]);
        panes[i]
    }

    /// Replace the pane at position `index`.
    pub fn set_pane(&mut self, index: usize, pane: Pane)
        requires
            index < old(self).leaves().len(),
        ensures
            final(self).leaves() == old(self).leaves().update(index as int, pane),
            layout_of(final(self).tree()) == layout_of(old(self).tree()),
    {
        let n = self.root.panes().len();
        let e = LeafEdit::Replace(index, pane);
        self.root.edit_leaves(0, &e);
        assert(self.leaves() =~= old(self).leaves().update(index as int, e->1));
    }

    /// Make active exactly the panes whose identifier is `id`.
    fn set_active(&mut self, id: &PaneId)
        ensures
            layout_of(final(self).tree()) == layout_of(old(self).tree()),
            final(self).leaves().len() == old(self).leaves().len(),
            forall|i: int|
                0 <= i < old(self).leaves().len() ==> #[trigger] final(self).leaves()[i]
                    == old(self).leaves()[i].with_active(old(self).leaves()[i].pid() == id@),
    {
        let n = self.root.panes().len();
        let e = LeafEdit::ActivateId(id.clone());
        self.root.edit_leaves(0, &e);
    }

    /// Make the pane after the active one active, wrapping around to the
    /// first.
    pub fn make_next_pane_active(&mut self)
        requires
            old(self).wf(),
        ensures
            activated_at(
                final(self).leaves(),
                old(self).leaves(),
                next_pos(old(self).active_pos(), old(self).leaves().len() as int),
            ),
            final(self).wf(),
            layout_of(final(self).tree()) == layout_of(old(self).tree()),
    {
        let panes = self.root.panes();
        let index = self.active_index();
        let n = panes.len();
        assert(panes@.map_values(|p: &Pane| *p).len() == n);
        let next = if index == n - 1 {
            0
        } else {
            index + 1
        };
        let pane_id = panes[next].id().clone();
        assert(pane_id@ == self.leaves()[next as int].pid());
        self.set_active(&pane_id);
        assert(self.leaves()[next as int] == old(self).leaves()[next as int].with_active(true));
        assert(self.leaves()[next as int].active_flag());
    }

    /// Make the pane before the active one active, wrapping around to the
    /// last.
    pub fn make_previous_pane_active(&mut self)
        requires
            old(self).wf(),
        ensures
            activated_at(
                final(self).leaves(),
                old(self).leaves(),
                prev_pos(old(self).active_pos(), old(self).leaves().len() as int),
            ),
            final(self).wf(),
            layout_of(final(self).tree()) == layout_of(old(self).tree()),
    {
        let panes = self.root.panes();
        let index = self.active_index();
        let prev = if index == 0 {
            panes.len() - 1
        } else {
            index - 1
        };
        let pane_id = panes[prev].id().clone();
        assert(pane_id@ == self.leaves()[prev as int].pid());
        self.set_active(&pane_id);
        assert(self.leaves()[prev as int] == old(self).leaves()[prev as int].with_active(true));
        assert(self.leaves()[prev as int].active_flag());
    }
}

/// A pane shown in another buffer keeps all else.
pub proof fn lemma_with_buffer(p: Pane, b: BufferId)
    ensures
        p.with_buffer(b).pid() == p.pid(),
        p.with_buffer(b).bid() == b@,
        p.with_buffer(b).top() == p.top(),
        p.with_buffer(b).active_flag() == p.active_flag(),
        p.with_buffer(b).info_bar() == p.info_bar(),
        p.with_buffer(b).cursor_visible() == p.cursor_visible(),
{
}

/// Setting the active flag keeps everything else of a pane.
pub proof fn lemma_with_active(p: Pane, b: bool)
    ensures
        p.with_active(b).pid() == p.pid(),
        p.with_active(b).bid() == p.bid(),
        p.with_active(b).top() == p.top(),
        p.with_active(b).active_flag() == b,
        p.with_active(b).info_bar() == p.info_bar(),
        p.with_active(b).cursor_visible() == p.cursor_visible(),
{
}

/// `qs` is `ps` with the panes that showed buffer `from` showing `to`.
pub open spec fn rebound(qs: Seq<Pane>, ps: Seq<Pane>, from: Seq<char>, to: BufferId) -> bool {
    &&& qs.len() == ps.len()
    &&& forall|i: int|
        0 <= i < ps.len() ==> #[trigger] qs[i] == (if ps[i].bid() == from {
            ps[i].with_buffer(to)
        } else {
            ps[i]
        })
}

/// The position after `i` among `n`, wrapping around.
pub open spec fn next_pos(i: int, n: int) -> int {
    if i + 1 == n {
        0
    } else {
        i + 1
    }
}

/// The position before `i` among `n`, wrapping around.
pub open spec fn prev_pos(i: int, n: int) -> int {
    if i == 0 {
        n - 1
    } else {
        i - 1
    }
}



// ---------------------------------------------------------------------
// Splitting

/// The trees that replace `t` when the pane `id` is split in
/// orientation `o` and `np` is the new pane: the leaf being split
/// becomes itself followed by `np`; an internal node keeps its place,
/// and takes `o` as its orientation when its only child is split.
pub open spec fn split_tree(t: TreeView, o: Orientation, id: Seq<char>, np: Pane) -> Seq<TreeView>
    decreases t,
{
    match t {
        TreeView::Leaf(p) => if p.pid() == id {
            seq![t, TreeView::Leaf(np)]
        } else {
            seq![t]
        },
        TreeView::Internal(or, cs) => {
            let new_or = if cs.len() == 1 && split_tree(cs[0], o, id, np).len() == 2 {
                o
            } else {
                or
            };
            seq![TreeView::Internal(new_or, split_children(cs, o, id, np, new_or))]
        },
    }
}

/// The children of a node of orientation `new_or` after a split: a
/// child that is split into two is replaced by both when the split
/// orientation matches, and by a new node of that orientation holding
/// both otherwise.
pub open spec fn split_children(
    cs: Seq<TreeView>,
    o: Orientation,
    id: Seq<char>,
    np: Pane,
    new_or: Orientation,
) -> Seq<TreeView>
    decreases cs,
{
    if cs.len() == 0 {
        Seq::empty()
    } else {
        let r = split_tree(cs[0], o, id, np);
        let here = if r.len() == 2 && o != new_or {
            seq![TreeView::Internal(o, r)]
        } else {
            r
        };
        here + split_children(cs.drop_first(), o, id, np, new_or)
    }
}

/// The tree after splitting the pane `id` of tree `t`.
pub open spec fn split_root(t: TreeView, o: Orientation, id: Seq<char>, np: Pane) -> TreeView {
    let r = split_tree(t, o, id, np);
    if r.len() == 2 {
        TreeView::Internal(o, r)
    } else {
        r[0]
    }
}

/// `ps` with `np` inserted after each pane whose identifier is `id`.
pub open spec fn insert_after(ps: Seq<Pane>, id: Seq<char>, np: Pane) -> Seq<Pane>
    decreases ps.len(),
{
    if ps.len() == 0 {
        Seq::empty()
    } else {
        (if ps[0].pid() == id {
            seq![ps[0], np]
        } else {
            seq![ps[0]]
        }) + insert_after(ps.drop_first(), id, np)
    }
}

/// `np` is the pane `p` under another identifier, and not active.
pub open spec fn is_copy_of(np: Pane, p: Pane) -> bool {
    &&& np.bid() == p.bid()
    &&& np.top() == p.top()
    &&& np.info_bar() == p.info_bar()
    &&& np.cursor_visible() == p.cursor_visible()
    &&& !np.active_flag()
}

enum SplitResult {
    Split(Node, Node),
    Single(Node),
}

spec fn result_view(r: SplitResult) -> Seq<TreeView> {
    match r {
        SplitResult::Split(a, b) => seq![node_view(a), node_view(b)],
        SplitResult::Single(a) => seq![node_view(a)],
    }
}

proof fn lemma_split_children_concat(
    a: Seq<TreeView>,
    b: Seq<TreeView>,
    o: Orientation,
    id: Seq<char>,
    np: Pane,
    new_or: Orientation,
)
    ensures
        split_children(a + b, o, id, np, new_or) == split_children(a, o, id, np, new_or)
            + split_children(b, o, id, np, new_or),
    decreases a.len(),
{
    if a.len() == 0 {
        assert(a + b =~= b);
        assert(split_children(a, o, id, np, new_or) == Seq::<TreeView>::empty());
        assert(Seq::<TreeView>::empty() + split_children(b, o, id, np, new_or) =~= split_children(
            b,
            o,
            id,
            np,
            new_or,
        ));
    } else {
        lemma_split_children_concat(a.drop_first(), b, o, id, np, new_or);
        assert((a + b).drop_first() =~= a.drop_first() + b);
        assert((a + b)[0] == a[0]);
        let r = split_tree(a[0], o, id, np);
        let here = if r.len() == 2 && o != new_or {
            seq![TreeView::Internal(o, r)]
        } else {
            r
        };
        assert(here + (split_children(a.drop_first(), o, id, np, new_or) + split_children(
            b,
            o,
            id,
            np,
            new_or,
        )) =~= (here + split_children(a.drop_first(), o, id, np, new_or)) + split_children(
            b,
            o,
            id,
            np,
            new_or,
        ));
    }
}

proof fn lemma_split_children_one(t: TreeView, o: Orientation, id: Seq<char>, np: Pane, new_or: Orientation)
    ensures
        split_children(seq![t], o, id, np, new_or) == (if split_tree(t, o, id, np).len() == 2 && o
            != new_or {
            seq![TreeView::Internal(o, split_tree(t, o, id, np))]
        } else {
            split_tree(t, o, id, np)
        }),
{
    assert(seq![t].drop_first() =~= Seq::<TreeView>::empty());
    assert(seq![t][0] == t);
    assert(split_children(Seq::<TreeView>::empty(), o, id, np, new_or) == Seq::<TreeView>::empty());
    let r = split_tree(t, o, id, np);
    assert(r + Seq::<TreeView>::empty() =~= r);
    assert(seq![TreeView::Internal(o, r)] + Seq::<TreeView>::empty() =~= seq![TreeView::Internal(o, r)]);
}

impl Node {
    /// Split the pane `active_pane_id` of this subtree, adding `new_pane`
    /// after it.
    #[verifier::loop_isolation(false)]
    fn split(self, orientation: Orientation, active_pane_id: &PaneId, new_pane: Pane) -> (res: SplitResult)
        ensures
            result_view(res) == split_tree(node_view(self), orientation, active_pane_id@, new_pane),
        decreases self,
    {
        let ghost s0 = self;
        match self {
            Node::Leaf(pane) => {
                if pane.id.same(active_pane_id) {
                    SplitResult::Split(Node::Leaf(pane), Node::Leaf(new_pane))
                } else {
                    SplitResult::Single(Node::Leaf(pane))
                }
            },
            Node::Internal(internal) => {
                let Internal { orientation: old_orientation, children } = internal;
                let ghost old_cs = children@;
                let ghost ocv = children_view(old_cs);
                let ghost nor = if ocv.len() == 1 && split_tree(ocv[0], orientation, active_pane_id@, new_pane).len() == 2 {
                    orientation
                } else {
                    old_orientation
                };
                let mut children = children;
                let mut new_children: Vec<Node> = Vec::new();
                let mut new_orientation = old_orientation;
                let num_children = children.len();
                let mut i: usize = 0;
                proof {
                    lemma_children_view(old_cs);
                    assert(old_cs.take(0) =~= Seq::<Node>::empty());
                    assert(children_view(Seq::<Node>::empty()) == Seq::<TreeView>::empty());
                    assert(children_view(new_children@) == Seq::<TreeView>::empty());
                    assert(split_children(Seq::<TreeView>::empty(), orientation, active_pane_id@, new_pane, nor) == Seq::<TreeView>::empty());
                    assert(old_cs.skip(0) =~= old_cs);
                }
                while children.len() > 0
                    invariant
                        s0 is Internal,
                        s0->Internal_0.children@ == old_cs,
                        s0->Internal_0.orientation == old_orientation,
                        ocv == children_view(old_cs),
                        ocv.len() == old_cs.len(),
                        forall|j: int| 0 <= j < old_cs.len() ==> #[trigger] ocv[j] == node_view(old_cs[j]),
                        num_children == old_cs.len(),
                        i + children@.len() == num_children,
                        children@ == old_cs.skip(i as int),
                        nor == (if ocv.len() == 1 && split_tree(ocv[0], orientation, active_pane_id@, new_pane).len() == 2 {
                            orientation
                        } else {
                            old_orientation
                        }),
                        i > 0 ==> new_orientation == nor,
                        i == 0 ==> new_orientation == old_orientation,
                        children_view(new_children@) == split_children(
                            children_view(old_cs.take(i as int)),
                            orientation,
                            active_pane_id@,
                            new_pane,
                            nor,
                        ),
                    decreases children@.len(),
                {
                    let child = children.remove(0);
                    proof {
                        assert(child == old_cs[i as int]);
                        assert(decreases_to!(s0 => s0->Internal_0));
                        assert(decreases_to!(s0->Internal_0 => s0->Internal_0.children));
                        assert(decreases_to!(s0->Internal_0.children => old_cs));
                        assert(decreases_to!(old_cs => old_cs[i as int]));
                        assert(children@ =~= old_cs.skip(i as int + 1));
                        lemma_children_view_take(old_cs, i as int);
                        assert(children_view(old_cs.take(i as int)).push(node_view(old_cs[i as int]))
                            =~= children_view(old_cs.take(i as int)) + seq![node_view(old_cs[i as int])]);
                        lemma_split_children_concat(
                            children_view(old_cs.take(i as int)),
                            seq![node_view(old_cs[i as int])],
                            orientation,
                            active_pane_id@,
                            new_pane,
                            nor,
                        );
                        lemma_split_children_one(node_view(old_cs[i as int]), orientation, active_pane_id@, new_pane, nor);
                    }
                    let ghost before = new_children@;
                    let pane_copy = new_pane.clone();
                    match child.split(orientation, active_pane_id, pane_copy) {
                        SplitResult::Split(child1, child2) => {
                            if num_children == 1 {
                                new_orientation = orientation;
                            }
                            if orientation == new_orientation {
                                new_children.push(child1);
                                new_children.push(child2);
                                proof {
                                    lemma_children_view(before);
                                    lemma_children_view(new_children@);
                                    assert(children_view(new_children@) =~= children_view(before) + seq![
                                        node_view(child1),
                                        node_view(child2),
                                    ]);
                                }
                            } else {
                                let mut pair: Vec<Node> = Vec::new();
                                pair.push(child1);
                                pair.push(child2);
                                proof {
                                    lemma_children_view(pair@);
                                    assert(children_view(pair@) =~= seq![node_view(child1), node_view(child2)]);
                                }
                                let node = Node::Internal(Internal { orientation, children: pair });
                                new_children.push(node);
                                proof {
                                    lemma_children_view(before);
                                    lemma_children_view(new_children@);
                                    assert(children_view(new_children@) =~= children_view(before) + seq![
                                        node_view(node),
                                    ]);
                                }
                            }
                        },
                        SplitResult::Single(c) => {
                            new_children.push(c);
                            proof {
                                lemma_children_view(before);
                                lemma_children_view(new_children@);
                                assert(children_view(new_children@) =~= children_view(before) + seq![
                                    node_view(c),
                                ]);
                            }
                        },
                    }
                    i = i + 1;
                }
                proof {
                    assert(old_cs.take(i as int) =~= old_cs);
                }
                let node = Node::Internal(Internal { orientation: new_orientation, children: new_children });
                proof {
                    if num_children != 0 {
                        assert(new_orientation == nor);
                    }
                }
                SplitResult::Single(node)
            },
        }
    }
}


/// `np` inserted after the panes of `a + b` is the same as inserted
/// after those of `a` and then of `b`.
pub proof fn lemma_insert_after_concat(a: Seq<Pane>, b: Seq<Pane>, id: Seq<char>, np: Pane)
    ensures
        insert_after(a + b, id, np) == insert_after(a, id, np) + insert_after(b, id, np),
    decreases a.len(),
{
    if a.len() == 0 {
        assert(a + b =~= b);
        assert(insert_after(a, id, np) == Seq::<Pane>::empty());
        assert(Seq::<Pane>::empty() + insert_after(b, id, np) =~= insert_after(b, id, np));
    } else {
        lemma_insert_after_concat(a.drop_first(), b, id, np);
        assert((a + b).drop_first() =~= a.drop_first() + b);
        assert((a + b)[0] == a[0]);
        let here = if a[0].pid() == id {
            seq![a[0], np]
        } else {
            seq![a[0]]
        };
        assert(here + (insert_after(a.drop_first(), id, np) + insert_after(b, id, np)) =~= (here
            + insert_after(a.drop_first(), id, np)) + insert_after(b, id, np));
    }
}

proof fn lemma_split_tree_leaves(t: TreeView, o: Orientation, id: Seq<char>, np: Pane)
    ensures
        seq_leaves(split_tree(t, o, id, np)) == insert_after(tree_leaves(t), id, np),
    decreases t,
{
    match t {
        TreeView::Leaf(p) => {
            assert(seq![p].drop_first() =~= Seq::<Pane>::empty());
            assert(insert_after(Seq::<Pane>::empty(), id, np) == Seq::<Pane>::empty());
            assert(seq![p][0] == p);
            if p.pid() == id {
                let r = seq![t, TreeView::Leaf(np)];
                assert(r.drop_first() =~= seq![TreeView::Leaf(np)]);
                lemma_seq_leaves_one(TreeView::Leaf(np));
                assert(r[0] == t);
                assert(tree_leaves(t) == seq![p]);
                assert(tree_leaves(TreeView::Leaf(np)) == seq![np]);
                assert(seq_leaves(r) == seq![p] + seq![np]);
                assert(seq![p] + seq![np] =~= seq![p, np]);
                assert(seq![p, np] + Seq::<Pane>::empty() =~= seq![p, np]);
            } else {
                lemma_seq_leaves_one(t);
                assert(seq![p] + Seq::<Pane>::empty() =~= seq![p]);
            }
        },
        TreeView::Internal(or, cs) => {
            let new_or = if cs.len() == 1 && split_tree(cs[0], o, id, np).len() == 2 {
                o
            } else {
                or
            };
            lemma_split_children_leaves(cs, o, id, np, new_or);
            lemma_seq_leaves_one(TreeView::Internal(new_or, split_children(cs, o, id, np, new_or)));
        },
    }
}

proof fn lemma_split_children_leaves(
    cs: Seq<TreeView>,
    o: Orientation,
    id: Seq<char>,
    np: Pane,
    new_or: Orientation,
)
    ensures
        seq_leaves(split_children(cs, o, id, np, new_or)) == insert_after(seq_leaves(cs), id, np),
    decreases cs,
{
    if cs.len() == 0 {
        assert(seq_leaves(Seq::<TreeView>::empty()) == Seq::<Pane>::empty());
        assert(insert_after(Seq::<Pane>::empty(), id, np) == Seq::<Pane>::empty());
    } else {
        assert(decreases_to!(cs => cs[0]));
        lemma_split_tree_leaves(cs[0], o, id, np);
        lemma_split_children_leaves(cs.drop_first(), o, id, np, new_or);
        let r = split_tree(cs[0], o, id, np);
        let here = if r.len() == 2 && o != new_or {
            seq![TreeView::Internal(o, r)]
        } else {
            r
        };
        if r.len() == 2 && o != new_or {
            lemma_seq_leaves_one(TreeView::Internal(o, r));
        }
        assert(seq_leaves(here) == seq_leaves(r));
        lemma_seq_leaves_concat(here, split_children(cs.drop_first(), o, id, np, new_or));
        lemma_insert_after_concat(tree_leaves(cs[0]), seq_leaves(cs.drop_first()), id, np);
    }
}

/// Splitting a tree inserts the new pane after the pane being split.
pub proof fn lemma_split_root_leaves(t: TreeView, o: Orientation, id: Seq<char>, np: Pane)
    ensures
        tree_leaves(split_root(t, o, id, np)) == insert_after(tree_leaves(t), id, np),
{
    lemma_split_tree_leaves(t, o, id, np);
    let r = split_tree(t, o, id, np);
    if r.len() != 2 {
        assert(r.len() == 1) by {
            match t {
                TreeView::Leaf(p) => {},
                TreeView::Internal(or, cs) => {},
            }
        }
        lemma_seq_leaves_one(r[0]);
        assert(r =~= seq![r[0]]);
    }
}

impl PaneTree {
    /// `self` is `old` after splitting its active pane in orientation `o`,
    /// and `buf` is `old_buf` with the new pane's cursor placed where the
    /// active pane's is.
    pub open spec fn split_from(&self, old: PaneTree, o: Orientation, buf: Buffer, old_buf: Buffer) -> bool {
        &&& self.wf()
        &&& exists|np: Pane|
            #![trigger is_copy_of(np, old.leaves()[old.active_pos()])]
            {
                let active = old.leaves()[old.active_pos()];
                &&& is_copy_of(np, active)
                &&& np.pid().len() == 13
                &&& self.tree() == split_root(old.tree(), o, active.pid(), np)
                &&& self.leaves() == insert_after(old.leaves(), active.pid(), np)
                &&& buf.cursor_set_from(&old_buf, np.pid(), old_buf.cur_cursors()[active.pid()])
            }
    }

    /// Split the active pane in `orientation`. The new pane copies the
    /// active one under a fresh identifier and is not active; its cursor
    /// in `buf` starts where the active pane's cursor is.
    pub fn split(&mut self, orientation: Orientation, buf: &mut Buffer)
        requires
            old(self).wf(),
            old(buf).wf(),
            old(buf).cur_cursors().dom().contains(old(self).leaves()[old(self).active_pos()].pid()),
        ensures
            final(self).split_from(*old(self), orientation, *final(buf), *old(buf)),
    {
        let active = self.active();
        let active_id = active.id.clone();
        let new_pane = Pane {
            id: PaneId::new(),
            buffer_id: active.buffer_id.clone(),
            top_line: active.top_line,
            is_active: false,
            show_info_bar: active.show_info_bar,
            is_cursor_visible: active.is_cursor_visible,
        };
        let cursor = buf.cursor(active.id());
        buf.set_cursor(new_pane.id(), cursor);
        let ghost old_tree = self.tree();
        let ghost np = new_pane;
        let mut root = Node::Internal(Internal { orientation: Orientation::Horizontal, children: Vec::new() });
        std::mem::swap(&mut root, &mut self.root);
        self.root = match root.split(orientation, &active_id, new_pane) {
            SplitResult::Single(single) => single,
            SplitResult::Split(child1, child2) => {
                let mut children: Vec<Node> = Vec::new();
                children.push(child1);
                children.push(child2);
                proof {
                    lemma_children_view(children@);
                    assert(children_view(children@) =~= seq![node_view(child1), node_view(child2)]);
                }
                Node::Internal(Internal { orientation, children })
            },
        };
        proof {
            assert(self.tree() == split_root(old_tree, orientation, active_id@, np));
            lemma_split_root_leaves(old_tree, orientation, active_id@, np);
            lemma_insert_after_keeps_active(old(self).leaves(), active_id@, np);
            assert(is_copy_of(np, old(self).leaves()[old(self).active_pos()]));
        }
    }
}

/// Inserting an inactive pane keeps the active panes active, so some
/// pane stays active.
proof fn lemma_insert_after_keeps_active(ps: Seq<Pane>, id: Seq<char>, np: Pane)
    requires
        some_active(ps),
    ensures
        some_active(insert_after(ps, id, np)),
    decreases ps.len(),
{
    let rest = insert_after(ps.drop_first(), id, np);
    let here = if ps[0].pid() == id {
        seq![ps[0], np]
    } else {
        seq![ps[0]]
    };
    let q = insert_after(ps, id, np);
    assert(q == here + rest);
    if ps[0].active_flag() {
        assert(q[0] == ps[0]);
        assert(q[0].active_flag());
    } else {
        let i = choose|i: int| 0 <= i < ps.len() && (#[trigger] ps[i]).active_flag();
        assert(ps.drop_first()[i - 1] == ps[i]);
        assert(some_active(ps.drop_first()));
        lemma_insert_after_keeps_active(ps.drop_first(), id, np);
        let j = choose|j: int| 0 <= j < rest.len() && (#[trigger] rest[j]).active_flag();
        assert(q[here.len() + j] == rest[j]);
    }
}


// ---------------------------------------------------------------------
// Laws

/// Number of active panes in `ps`.
pub open spec fn count_active(ps: Seq<Pane>) -> nat
    decreases ps.len(),
{
    if ps.len() == 0 {
        0
    } else {
        (if ps[0].active_flag() {
            1nat
        } else {
            0nat
        }) + count_active(ps.drop_first())
    }
}

/// Counting active panes: none means no pane is active, one means
/// exactly one is.
pub proof fn lemma_count_active(ps: Seq<Pane>)
    ensures
        count_active(ps) == 0 <==> !some_active(ps),
        count_active(ps) == 1 <==> one_active(ps),
    decreases ps.len(),
{
    if ps.len() > 0 {
        let rest = ps.drop_first();
        lemma_count_active(rest);
        assert forall|j: int| 0 <= j < rest.len() implies #[trigger] rest[j] == ps[j + 1] by {}
        if some_active(rest) {
            let j = choose|j: int| 0 <= j < rest.len() && (#[trigger] rest[j]).active_flag();
            assert(ps[j + 1].active_flag());
        }
        if some_active(ps) && !ps[0].active_flag() {
            let i = choose|i: int| 0 <= i < ps.len() && (#[trigger] ps[i]).active_flag();
            assert(rest[i - 1].active_flag());
        }
        if ps[0].active_flag() {
            if one_active(ps) && some_active(rest) {
                let j = choose|j: int| 0 <= j < rest.len() && (#[trigger] rest[j]).active_flag();
                assert(ps[j + 1].active_flag());
                assert(false);
            }
            if !some_active(rest) {
                assert forall|i: int, j: int|
                    0 <= i < ps.len() && 0 <= j < ps.len() && (#[trigger] ps[i]).active_flag()
                        && (#[trigger] ps[j]).active_flag() implies i == j by {
                    if i > 0 {
                        assert(rest[i - 1].active_flag());
                    }
                    if j > 0 {
                        assert(rest[j - 1].active_flag());
                    }
                }
            }
        } else {
            if one_active(ps) {
                assert forall|i: int, j: int|
                    0 <= i < rest.len() && 0 <= j < rest.len() && (#[trigger] rest[i]).active_flag()
                        && (#[trigger] rest[j]).active_flag() implies i == j by {
                    assert(ps[i + 1].active_flag());
                    assert(ps[j + 1].active_flag());
                }
            }
            if one_active(rest) {
                assert forall|i: int, j: int|
                    0 <= i < ps.len() && 0 <= j < ps.len() && (#[trigger] ps[i]).active_flag()
                        && (#[trigger] ps[j]).active_flag() implies i == j by {
                    assert(rest[i - 1].active_flag());
                    assert(rest[j - 1].active_flag());
                }
            }
        }
    } else {
        assert(!some_active(ps));
    }
}

proof fn lemma_count_active_concat(a: Seq<Pane>, b: Seq<Pane>)
    ensures
        count_active(a + b) == count_active(a) + count_active(b),
    decreases a.len(),
{
    if a.len() == 0 {
        assert(a + b =~= b);
    } else {
        lemma_count_active_concat(a.drop_first(), b);
        assert((a + b).drop_first() =~= a.drop_first() + b);
        assert((a + b)[0] == a[0]);
    }
}

proof fn lemma_insert_after_count(ps: Seq<Pane>, id: Seq<char>, np: Pane)
    requires
        !np.active_flag(),
    ensures
        count_active(insert_after(ps, id, np)) == count_active(ps),
    decreases ps.len(),
{
    if ps.len() > 0 {
        lemma_insert_after_count(ps.drop_first(), id, np);
        let here = if ps[0].pid() == id {
            seq![ps[0], np]
        } else {
            seq![ps[0]]
        };
        lemma_count_active_concat(here, insert_after(ps.drop_first(), id, np));
        assert(count_active(Seq::<Pane>::empty()) == 0);
        assert(seq![ps[0]].drop_first() =~= Seq::<Pane>::empty());
        assert(seq![ps[0]][0] == ps[0]);
        if ps[0].pid() == id {
            assert(seq![ps[0], np].drop_first() =~= seq![np]);
            assert(seq![ps[0], np][0] == ps[0]);
            assert(seq![np].drop_first() =~= Seq::<Pane>::empty());
            assert(seq![np][0] == np);
            assert(count_active(seq![np]) == 0);
        }
    }
}

/// Splitting a pane keeps exactly one pane active: the new pane is not
/// active.
pub proof fn law_split_keeps_one_active(ps: Seq<Pane>, id: Seq<char>, np: Pane)
    requires
        one_active(ps),
        !np.active_flag(),
    ensures
        one_active(insert_after(ps, id, np)),
{
    lemma_count_active(ps);
    lemma_insert_after_count(ps, id, np);
    lemma_count_active(insert_after(ps, id, np));
}

proof fn lemma_insert_after_absent(ps: Seq<Pane>, id: Seq<char>, np: Pane)
    requires
        forall|i: int| 0 <= i < ps.len() ==> (#[trigger] ps[i]).pid() != id,
    ensures
        insert_after(ps, id, np) == ps,
    decreases ps.len(),
{
    if ps.len() > 0 {
        assert forall|i: int| 0 <= i < ps.drop_first().len() implies (
        #[trigger] ps.drop_first()[i]).pid() != id by {
            assert(ps.drop_first()[i] == ps[i + 1]);
        }
        lemma_insert_after_absent(ps.drop_first(), id, np);
        assert(ps[0].pid() != id);
        assert(seq![ps[0]] + ps.drop_first() =~= ps);
    } else {
        assert(ps =~= Seq::<Pane>::empty());
    }
}

/// When identifiers are unique, splitting pane `k` places the new pane
/// right after it and leaves the others in order.
pub proof fn law_split_inserts_after(ps: Seq<Pane>, k: int, np: Pane)
    requires
        unique_ids(ps),
        0 <= k < ps.len(),
    ensures
        insert_after(ps, ps[k].pid(), np) == ps.take(k + 1) + seq![np] + ps.skip(k + 1),
{
    let id = ps[k].pid();
    let a = ps.take(k);
    let m = seq![ps[k]];
    let b = ps.skip(k + 1);
    assert(ps =~= a + m + b);
    assert forall|i: int| 0 <= i < a.len() implies (#[trigger] a[i]).pid() != id by {
        assert(a[i] == ps[i]);
    }
    assert forall|i: int| 0 <= i < b.len() implies (#[trigger] b[i]).pid() != id by {
        assert(b[i] == ps[k + 1 + i]);
    }
    lemma_insert_after_absent(a, id, np);
    lemma_insert_after_absent(b, id, np);
    lemma_insert_after_concat(a + m, b, id, np);
    lemma_insert_after_concat(a, m, id, np);
    assert(m.drop_first() =~= Seq::<Pane>::empty());
    assert(m[0] == ps[k]);
    assert(insert_after(Seq::<Pane>::empty(), id, np) == Seq::<Pane>::empty());
    assert(insert_after(m, id, np) =~= seq![ps[k], np]);
    assert(ps.take(k + 1) =~= a + m);
    assert(a + seq![ps[k], np] + b =~= a + m + seq![np] + b);
}

/// `qs` is `ps` with exactly the panes sharing pane `k`'s identifier
/// made active.
pub open spec fn activated_at(qs: Seq<Pane>, ps: Seq<Pane>, k: int) -> bool {
    &&& qs.len() == ps.len()
    &&& forall|i: int|
        0 <= i < ps.len() ==> #[trigger] qs[i] == ps[i].with_active(ps[i].pid() == ps[k].pid())
}

/// With unique identifiers, activating pane `k` leaves exactly pane `k`
/// active and the identifiers unique.
pub proof fn law_activate_unique(qs: Seq<Pane>, ps: Seq<Pane>, k: int)
    requires
        unique_ids(ps),
        0 <= k < ps.len(),
        activated_at(qs, ps, k),
    ensures
        one_active(qs),
        first_active(qs) == k,
        unique_ids(qs),
        forall|i: int| 0 <= i < qs.len() ==> (#[trigger] qs[i]).active_flag() == (i == k),
{
    assert forall|i: int| 0 <= i < qs.len() implies (#[trigger] qs[i]).active_flag() == (i == k) by {
        assert(qs[i] == ps[i].with_active(ps[i].pid() == ps[k].pid()));
    }
    assert forall|i: int, j: int|
        0 <= i < qs.len() && 0 <= j < qs.len() && i != j implies (#[trigger] qs[i]).pid() != (
        #[trigger] qs[j]).pid() by {
        assert(qs[i] == ps[i].with_active(ps[i].pid() == ps[k].pid()));
        assert(qs[j] == ps[j].with_active(ps[j].pid() == ps[k].pid()));
    }
    assert(qs[k].active_flag());
    lemma_first_active(qs);
}

/// Making the next pane active and then the previous one gives back the
/// panes as they were, when exactly one is active and identifiers are
/// unique.
pub proof fn law_next_then_previous(a: Seq<Pane>, b: Seq<Pane>, c: Seq<Pane>)
    requires
        one_active(a),
        unique_ids(a),
        activated_at(b, a, next_pos(first_active(a), a.len() as int)),
        activated_at(c, b, prev_pos(first_active(b), b.len() as int)),
    ensures
        c == a,
{
    lemma_count_active(a);
    lemma_first_active(a);
    let k = first_active(a);
    law_activate_unique(b, a, next_pos(k, a.len() as int));
    law_activate_unique(c, b, prev_pos(first_active(b), b.len() as int));
    assert(prev_pos(next_pos(k, a.len() as int), a.len() as int) == k);
    assert forall|i: int| 0 <= i < a.len() implies #[trigger] c[i] == a[i] by {
        assert(a[i].active_flag() == (i == k));
        assert(c[i] == b[i].with_active(c[i].active_flag()));
        assert(b[i] == a[i].with_active(b[i].active_flag()));
    }
    assert(c =~= a);
}

/// Making the previous pane active and then the next one gives back the
/// panes as they were, when exactly one is active and identifiers are
/// unique.
pub proof fn law_previous_then_next(a: Seq<Pane>, b: Seq<Pane>, c: Seq<Pane>)
    requires
        one_active(a),
        unique_ids(a),
        activated_at(b, a, prev_pos(first_active(a), a.len() as int)),
        activated_at(c, b, next_pos(first_active(b), b.len() as int)),
    ensures
        c == a,
{
    lemma_count_active(a);
    lemma_first_active(a);
    let k = first_active(a);
    law_activate_unique(b, a, prev_pos(k, a.len() as int));
    law_activate_unique(c, b, next_pos(first_active(b), b.len() as int));
    assert(next_pos(prev_pos(k, a.len() as int), a.len() as int) == k);
    assert forall|i: int| 0 <= i < a.len() implies #[trigger] c[i] == a[i] by {
        assert(a[i].active_flag() == (i == k));
        assert(c[i] == b[i].with_active(c[i].active_flag()));
        assert(b[i] == a[i].with_active(b[i].active_flag()));
    }
    assert(c =~= a);
}

} // verus!
