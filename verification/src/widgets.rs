//! The state behind the desktop buttons of the bar: which CSS classes and
//! visibility each button has, which changes an update needs, and how the
//! buttons are ordered. The buttons themselves live with the caller.

use std::collections::{BTreeMap, HashMap};
use vstd::prelude::*;
use crate::text::{lowercase_text, to_lowercase};
use crate::vdesk::{VirtualDesktop, VirtualDesktopView};
use crate::arrange::{DesktopEntry, DesktopEntryView, entries_view, sort_by_name, focused_first,
    sort_entries_by_name, move_focused_first};

verus! {

broadcast use {vstd::std_specs::btree::group_btree_axioms, vstd::std_specs::hash::group_hash_axioms};

/// How the buttons are ordered.
#[derive(Debug, Clone, Copy, PartialEq, Eq, Structural)]
pub enum SortStrategy {
    /// As Hyprland lists the desktops (by number).
    Number,
    /// By desktop name; desktops with equal names keep their relative order.
    Name,
    /// The focused desktop first, the others as listed.
    FocusedFirst,
}

/// The settings of the module that the widget logic reads.
#[derive(Debug, Clone, Copy, PartialEq, Eq, Structural)]
pub struct ModuleConfig {
    /// Show desktops that are neither populated nor focused.
    pub show_empty: bool,
    /// How to order the buttons.
    pub sort_by: SortStrategy,
}

/// A button is shown when empty desktops are shown, or its desktop is
/// populated or focused.
pub open spec fn visible(show_empty: bool, populated: bool, focused: bool) -> bool {
    show_empty || populated || focused
}

/// The CSS class that tells focused from unfocused desktops.
pub open spec fn focus_class(focused: bool) -> Seq<char> {
    if focused {
        "vdesk-focused"@
    } else {
        "vdesk-unfocused"@
    }
}

/// The CSS class of a status: `vdesk-status-<status in lower case>`.
pub open spec fn status_class(status: Seq<char>) -> Seq<char> {
    "vdesk-status-"@ + lowercase_text(status)
}

/// The CSS class of a status together with the focus:
/// `vdesk-status-<status in lower case>-focused` or `-unfocused`.
pub open spec fn status_focus_class(status: Seq<char>, focused: bool) -> Seq<char> {
    "vdesk-status-"@ + lowercase_text(status) + "-"@ + (if focused {
        "focused"@
    } else {
        "unfocused"@
    })
}

fn focus_class_text(focused: bool) -> (r: String)
    ensures
        r@ == focus_class(focused),
{
    if focused {
        String::from_str("vdesk-focused")
    } else {
        String::from_str("vdesk-unfocused")
    }
}

fn status_class_text(status: &str) -> (r: String)
    ensures
        r@ == status_class(status@),
{
    let lower = to_lowercase(status);
    let mut r = String::from_str("vdesk-status-");
    r.append(lower.as_str());
    r
}

fn status_focus_class_text(status: &str, focused: bool) -> (r: String)
    ensures
        r@ == status_focus_class(status@, focused),
{
    let mut r = status_class_text(status);
    r.append("-");
    if focused {
        r.append("focused");
    } else {
        r.append("unfocused");
    }
    r
}

/// The CSS classes a new button gets: its focus class and, where the status
/// is not empty, its status class and its status-and-focus class.
pub open spec fn initial_classes(focused: bool, status: Seq<char>) -> Seq<Seq<char>> {
    if status.len() == 0 {
        seq![focus_class(focused)]
    } else {
        seq![focus_class(focused), status_class(status), status_focus_class(status, focused)]
    }
}

/// A change to a button's CSS classes.
#[derive(Debug)]
pub enum ClassOp {
    Add(String),
    Remove(String),
}

/// The mathematical value of a change to a button's CSS classes.
pub enum ClassOpView {
    Add(Seq<char>),
    Remove(Seq<char>),
}

impl View for ClassOp {
    type V = ClassOpView;

    open spec fn view(&self) -> ClassOpView {
        match self {
            ClassOp::Add(s) => ClassOpView::Add(s@),
            ClassOp::Remove(s) => ClassOpView::Remove(s@),
        }
    }
}

/// The views of a list of class changes.
pub open spec fn class_ops_view(ops: Seq<ClassOp>) -> Seq<ClassOpView> {
    ops.map_values(|op: ClassOp| op@)
}

/// What a button remembers of its desktop.
#[derive(Debug)]
pub struct VirtualDesktopWidget {
    pub vdesk_id: u32,
    pub display_text: String,
    pub tooltip_text: String,
    pub focused: bool,
    pub populated: bool,
    pub status: String,
}

/// The mathematical value of a button's state.
pub struct WidgetView {
    pub vdesk_id: u32,
    pub display_text: Seq<char>,
    pub tooltip_text: Seq<char>,
    pub focused: bool,
    pub populated: bool,
    pub status: Seq<char>,
}

impl View for VirtualDesktopWidget {
    type V = WidgetView;

    open spec fn view(&self) -> WidgetView {
        WidgetView {
            vdesk_id: self.vdesk_id,
            display_text: self.display_text@,
            tooltip_text: self.tooltip_text@,
            focused: self.focused,
            populated: self.populated,
            status: self.status@,
        }
    }
}

/// The state of a new button for a desktop and its texts.
pub open spec fn new_widget_view(
    vdesk: VirtualDesktopView,
    display_text: Seq<char>,
    tooltip_text: Seq<char>,
) -> WidgetView {
    WidgetView {
        vdesk_id: vdesk.id,
        display_text,
        tooltip_text,
        focused: vdesk.focused,
        populated: vdesk.populated,
        status: vdesk.status,
    }
}

/// What an update of a button asks of the button, and whether anything changed.
#[derive(Debug)]
pub struct WidgetUpdate {
    /// Something about the button changed.
    pub updated: bool,
    /// The new label, where it changed.
    pub label: Option<String>,
    /// The new tooltip, where it changed.
    pub tooltip: Option<String>,
    /// The new visibility, where it changed.
    pub visible: Option<bool>,
    /// The CSS class changes, in the order to apply them.
    pub class_ops: Vec<ClassOp>,
}

/// The mathematical value of a button update.
pub struct WidgetUpdateView {
    pub updated: bool,
    pub label: Option<Seq<char>>,
    pub tooltip: Option<Seq<char>>,
    pub visible: Option<bool>,
    pub class_ops: Seq<ClassOpView>,
}

impl View for WidgetUpdate {
    type V = WidgetUpdateView;

    open spec fn view(&self) -> WidgetUpdateView {
        WidgetUpdateView {
            updated: self.updated,
            label: match self.label {
                Some(s) => Some(s@),
                None => None,
            },
            tooltip: match self.tooltip {
                Some(s) => Some(s@),
                None => None,
            },
            visible: self.visible,
            class_ops: class_ops_view(self.class_ops@),
        }
    }
}

/// The class changes when the focus changes: swap the focus class.
pub open spec fn focus_ops(old_focused: bool, new_focused: bool) -> Seq<ClassOpView> {
    if old_focused == new_focused {
        seq![]
    } else {
        seq![
            ClassOpView::Remove(focus_class(old_focused)),
            ClassOpView::Add(focus_class(new_focused)),
        ]
    }
}

/// The class changes when the status changes: drop the old status class (if
/// there was a status), add the new one (if there is a status).
pub open spec fn status_ops(old_status: Seq<char>, new_status: Seq<char>) -> Seq<ClassOpView> {
    if old_status == new_status {
        seq![]
    } else {
        (if old_status.len() == 0 {
            seq![]
        } else {
            seq![ClassOpView::Remove(status_class(old_status))]
        }) + (if new_status.len() == 0 {
            seq![]
        } else {
            seq![ClassOpView::Add(status_class(new_status))]
        })
    }
}

/// The class changes when the status or the focus changes: swap the
/// status-and-focus class, where there is a status.
pub open spec fn status_focus_ops(
    old_status: Seq<char>,
    old_focused: bool,
    new_status: Seq<char>,
    new_focused: bool,
) -> Seq<ClassOpView> {
    if old_status == new_status && old_focused == new_focused {
        seq![]
    } else {
        (if old_status.len() == 0 {
            seq![]
        } else {
            seq![ClassOpView::Remove(status_focus_class(old_status, old_focused))]
        }) + (if new_status.len() == 0 {
            seq![]
        } else {
            seq![ClassOpView::Add(status_focus_class(new_status, new_focused))]
        })
    }
}

/// What updating a button in state `w` to a desktop and its texts asks of the button.
pub open spec fn widget_update_view(
    w: WidgetView,
    vdesk: VirtualDesktopView,
    display_text: Seq<char>,
    tooltip_text: Seq<char>,
    show_empty: bool,
) -> WidgetUpdateView {
    let was_visible = visible(show_empty, w.populated, w.focused);
    let is_visible = visible(show_empty, vdesk.populated, vdesk.focused);
    WidgetUpdateView {
        updated: w.display_text != display_text || w.tooltip_text != tooltip_text || was_visible
            != is_visible || w.focused != vdesk.focused || w.status != vdesk.status || w.populated
            != vdesk.populated,
        label: if w.display_text != display_text {
            Some(display_text)
        } else {
            None
        },
        tooltip: if w.tooltip_text != tooltip_text {
            Some(tooltip_text)
        } else {
            None
        },
        visible: if was_visible != is_visible {
            Some(is_visible)
        } else {
            None
        },
        class_ops: focus_ops(w.focused, vdesk.focused) + status_ops(w.status, vdesk.status)
            + status_focus_ops(w.status, w.focused, vdesk.status, vdesk.focused),
    }
}

/// The state of a button after an update to a desktop and its texts.
pub open spec fn updated_widget_view(
    w: WidgetView,
    vdesk: VirtualDesktopView,
    display_text: Seq<char>,
    tooltip_text: Seq<char>,
) -> WidgetView {
    WidgetView {
        vdesk_id: w.vdesk_id,
        display_text,
        tooltip_text,
        focused: vdesk.focused,
        populated: vdesk.populated,
        status: vdesk.status,
    }
}

fn copy_string(s: &String) -> (r: String)
    ensures
        r@ == s@,
{
    s.clone()
}

impl VirtualDesktopWidget {
    /// The state of a new button for `vdesk` with the given label and tooltip.
    pub fn new(
        vdesk: &VirtualDesktop,
        display_text: String,
        tooltip_text: String,
        config: &ModuleConfig,
    ) -> (r: Self)
        ensures
            r@ == new_widget_view(vdesk@, display_text@, tooltip_text@),
    {
        VirtualDesktopWidget {
            vdesk_id: vdesk.id,
            display_text,
            tooltip_text,
            focused: vdesk.focused,
            populated: vdesk.populated,
            status: copy_string(&vdesk.status),
        }
    }

    /// Whether the button is shown under `config`.
    pub fn is_visible(&self, config: &ModuleConfig) -> (r: bool)
        ensures
            r == visible(config.show_empty, self.populated, self.focused),
            r == (config.show_empty || self.populated || self.focused),
    {
        config.show_empty || self.populated || self.focused
    }

    /// The CSS classes the button gets when it is created.
    pub fn initial_classes(&self) -> (r: Vec<String>)
        ensures
            r@.map_values(|c: String| c@) == initial_classes(self.focused, self.status@),
    {
        let mut r: Vec<String> = Vec::new();
        r.push(focus_class_text(self.focused));
        if self.status.as_str().unicode_len() != 0 {
            r.push(status_class_text(self.status.as_str()));
            r.push(status_focus_class_text(self.status.as_str(), self.focused));
        }
        assert(r@.map_values(|c: String| c@) =~= initial_classes(self.focused, self.status@));
        r
    }

    /// Brings the button up to date with `vdesk` and its texts, and says what
    /// the button must change: a new label or tooltip where they differ, a new
    /// visibility where it flips, and the CSS class swaps for a change of focus
    /// or status. `updated` tells whether anything about the desktop changed.
    pub fn update_if_changed(
        &mut self,
        vdesk: &VirtualDesktop,
        display_text: String,
        tooltip_text: String,
        config: &ModuleConfig,
    ) -> (r: WidgetUpdate)
        ensures
            r@ == widget_update_view(
                old(self)@,
                vdesk@,
                display_text@,
                tooltip_text@,
                config.show_empty,
            ),
            final(self)@ == updated_widget_view(old(self)@, vdesk@, display_text@, tooltip_text@),
    {
        let ghost w = self@;
        let mut updated = false;
        let mut label: Option<String> = None;
        let mut tooltip: Option<String> = None;
        let mut visible_change: Option<bool> = None;
        let mut ops: Vec<ClassOp> = Vec::new();

        if self.display_text != display_text {
            label = Some(copy_string(&display_text));
            self.display_text = display_text;
            updated = true;
        }
        if self.tooltip_text != tooltip_text {
            tooltip = Some(copy_string(&tooltip_text));
            self.tooltip_text = tooltip_text;
            updated = true;
        }
        let was_visible = config.show_empty || self.populated || self.focused;
        let is_visible = config.show_empty || vdesk.populated || vdesk.focused;
        if was_visible != is_visible {
            visible_change = Some(is_visible);
            updated = true;
        }
        let focus_changed = self.focused != vdesk.focused;
        let status_changed = self.status != vdesk.status;
        if focus_changed {
            ops.push(ClassOp::Remove(focus_class_text(self.focused)));
            ops.push(ClassOp::Add(focus_class_text(vdesk.focused)));
            updated = true;
        }
        assert(class_ops_view(ops@) =~= focus_ops(w.focused, vdesk.focused));
        let ghost ops_a = class_ops_view(ops@);
        if status_changed {
            if self.status.as_str().unicode_len() != 0 {
                ops.push(ClassOp::Remove(status_class_text(self.status.as_str())));
            }
            if vdesk.status.as_str().unicode_len() != 0 {
                ops.push(ClassOp::Add(status_class_text(vdesk.status.as_str())));
            }
            updated = true;
        }
        assert(class_ops_view(ops@) =~= ops_a + status_ops(w.status, vdesk.status@));
        let ghost ops_b = class_ops_view(ops@);
        if status_changed || focus_changed {
            if self.status.as_str().unicode_len() != 0 {
                ops.push(
                    ClassOp::Remove(status_focus_class_text(self.status.as_str(), self.focused)),
                );
            }
            if vdesk.status.as_str().unicode_len() != 0 {
                ops.push(
                    ClassOp::Add(status_focus_class_text(vdesk.status.as_str(), vdesk.focused)),
                );
            }
            updated = true;
        }
        assert(class_ops_view(ops@) =~= ops_b + status_focus_ops(
            w.status,
            w.focused,
            vdesk.status@,
            vdesk.focused,
        ));
        if self.populated != vdesk.populated {
            updated = true;
        }
        self.focused = vdesk.focused;
        self.populated = vdesk.populated;
        self.status = copy_string(&vdesk.status);
        let r = WidgetUpdate {
            updated,
            label,
            tooltip,
            visible: visible_change,
            class_ops: ops,
        };
        assert(r@.class_ops =~= widget_update_view(
            w,
            vdesk@,
            display_text@,
            tooltip_text@,
            config.show_empty,
        ).class_ops);
        r
    }
}


/// The last index at which `x` stands in `s`, or -1 where it does not.
pub open spec fn last_index_of(s: Seq<u32>, x: u32) -> int
    decreases s.len(),
{
    if s.len() == 0 {
        -1
    } else if s.last() == x {
        s.len() - 1
    } else {
        last_index_of(s.drop_last(), x)
    }
}

/// The first index at which `x` stands in `s`, or -1 where it does not.
pub open spec fn first_index_of(s: Seq<u32>, x: u32) -> int
    decreases s.len(),
{
    if s.len() == 0 {
        -1
    } else if s[0] == x {
        0
    } else if first_index_of(s.drop_first(), x) < 0 {
        -1
    } else {
        1 + first_index_of(s.drop_first(), x)
    }
}

/// The widget at index `i` of the target order has to move: `i` is where
/// the target order puts its id (its last occurrence there), the current
/// order holds the id too, and puts it (its last occurrence) elsewhere.
pub open spec fn needs_move(current: Seq<u32>, target: Seq<u32>, i: int) -> bool {
    &&& last_index_of(target, target[i]) == i
    &&& last_index_of(current, target[i]) >= 0
    &&& last_index_of(current, target[i]) != i
}

/// The moves among the first `k` positions of the target order.
pub open spec fn moves_upto(current: Seq<u32>, target: Seq<u32>, k: int) -> Seq<(u32, usize)>
    decreases k,
{
    if k <= 0 {
        seq![]
    } else {
        moves_upto(current, target, k - 1) + (if needs_move(current, target, k - 1) {
            seq![(target[k - 1], (k - 1) as usize)]
        } else {
            seq![]
        })
    }
}

/// The widgets to move, with their target positions, to go from the current
/// order to the target order; widgets not in the current order stay put.
pub open spec fn reorder_moves(current: Seq<u32>, target: Seq<u32>) -> Seq<(u32, usize)> {
    moves_upto(current, target, target.len() as int)
}

proof fn lemma_last_index_of(s: Seq<u32>, x: u32)
    ensures
        -1 <= last_index_of(s, x) < s.len(),
        last_index_of(s, x) >= 0 ==> s[last_index_of(s, x)] == x,
        forall|j: int| last_index_of(s, x) < j < s.len() ==> s[j] != x,
    decreases s.len(),
{
    if s.len() > 0 && s.last() != x {
        lemma_last_index_of(s.drop_last(), x);
        assert forall|j: int| last_index_of(s, x) < j < s.len() implies s[j] != x by {
            if j < s.len() - 1 {
                assert(s[j] == s.drop_last()[j]);
            }
        }
    }
}

proof fn lemma_first_index_of(s: Seq<u32>, x: u32)
    ensures
        -1 <= first_index_of(s, x) < s.len(),
        first_index_of(s, x) >= 0 ==> s[first_index_of(s, x)] == x,
        forall|j: int| 0 <= j < s.len() && (first_index_of(s, x) < 0 || j < first_index_of(s, x))
            ==> s[j] != x,
    decreases s.len(),
{
    if s.len() > 0 && s[0] != x {
        lemma_first_index_of(s.drop_first(), x);
        assert forall|j: int|
            0 <= j < s.len() && (first_index_of(s, x) < 0 || j < first_index_of(s, x)) implies s[j]
            != x by {
            if j > 0 {
                assert(s[j] == s.drop_first()[j - 1]);
            }
        }
    }
}

proof fn lemma_last_index_of_take(s: Seq<u32>, k: int, x: u32)
    requires
        0 <= k < s.len(),
    ensures
        last_index_of(s.take(k + 1), x) == (if s[k] == x {
            k
        } else {
            last_index_of(s.take(k), x)
        }),
{
    assert(s.take(k + 1).drop_last() =~= s.take(k));
    assert(s.take(k + 1).last() == s[k]);
}

/// For each id of `s`, the last index at which it stands.
fn last_positions(s: &[u32]) -> (m: HashMap<u32, usize>)
    ensures
        forall|x: u32| #[trigger] m@.contains_key(x) <==> last_index_of(s@, x) >= 0,
        forall|x: u32| #[trigger] m@.contains_key(x) ==> m@[x] == last_index_of(s@, x),
{
    let n = s.len();
    let mut m: HashMap<u32, usize> = HashMap::new();
    let mut k: usize = 0;
    while k < n
        invariant
            n == s@.len(),
            k <= n,
            forall|x: u32| #[trigger] m@.contains_key(x) <==> last_index_of(s@.take(k as int), x) >= 0,
            forall|x: u32| #[trigger] m@.contains_key(x) ==> m@[x] == last_index_of(s@.take(k as int), x),
        decreases n - k,
    {
        m.insert(s[k], k);
        proof {
            assert forall|x: u32| #[trigger] m@.contains_key(x) <==> last_index_of(s@.take(k + 1), x) >= 0 by {
                lemma_last_index_of_take(s@, k as int, x);
                lemma_last_index_of(s@.take(k as int), x);
            }
            assert forall|x: u32| #[trigger] m@.contains_key(x) implies m@[x] == last_index_of(s@.take(k + 1), x) by {
                lemma_last_index_of_take(s@, k as int, x);
            }
        }
        k = k + 1;
    }
    assert(s@.take(n as int) =~= s@);
    m
}

/// Where `x` first stands in `s`, if anywhere.
fn first_position(s: &[u32], x: u32) -> (r: Option<usize>)
    ensures
        match r {
            Some(j) => j == first_index_of(s@, x),
            None => first_index_of(s@, x) == -1,
        },
{
    proof {
        lemma_first_index_of(s@, x);
    }
    let n = s.len();
    let mut i: usize = 0;
    while i < n
        invariant
            n == s@.len(),
            i <= n,
            forall|j: int| 0 <= j < i ==> s@[j] != x,
            -1 <= first_index_of(s@, x) < s@.len(),
            first_index_of(s@, x) >= 0 ==> s@[first_index_of(s@, x)] == x,
            forall|j: int|
                0 <= j < s@.len() && (first_index_of(s@, x) < 0 || j < first_index_of(s@, x))
                    ==> s@[j] != x,
        decreases n - i,
    {
        if s[i] == x {
            return Some(i);
        }
        i = i + 1;
    }
    None
}

/// The widgets that have to move to go from the `current` order to the
/// `target` order, each with its target position, in target order. A widget
/// counts by the last place its id takes in each order; one that is not in the
/// current order does not move. The positions are looked up in hash maps, so
/// the orders are walked once each.
pub fn compute_reorder_moves(current: &[u32], target: &[u32]) -> (r: Vec<(u32, usize)>)
    ensures
        r@ == reorder_moves(current@, target@),
{
    let current_positions = last_positions(current);
    let target_positions = last_positions(target);
    let n = target.len();
    let mut r: Vec<(u32, usize)> = Vec::new();
    let mut i: usize = 0;
    while i < n
        invariant
            n == target@.len(),
            i <= n,
            r@ == moves_upto(current@, target@, i as int),
            forall|x: u32| #[trigger] current_positions@.contains_key(x) <==> last_index_of(current@, x) >= 0,
            forall|x: u32| #[trigger] current_positions@.contains_key(x) ==> current_positions@[x] == last_index_of(current@, x),
            forall|x: u32| #[trigger] target_positions@.contains_key(x) <==> last_index_of(target@, x) >= 0,
            forall|x: u32| #[trigger] target_positions@.contains_key(x) ==> target_positions@[x] == last_index_of(target@, x),
        decreases n - i,
    {
        let id = target[i];
        let moves = match (target_positions.get(&id), current_positions.get(&id)) {
            (Some(t), Some(c)) => *t == i && *c != i,
            _ => false,
        };
        proof {
            if !current_positions@.contains_key(id) {
                assert(last_index_of(current@, id) < 0);
            }
            if !target_positions@.contains_key(id) {
                assert(last_index_of(target@, id) < 0);
            }
            assert(moves == needs_move(current@, target@, i as int));
        }
        if moves {
            r.push((id, i));
        }
        i = i + 1;
        assert(r@ =~= moves_upto(current@, target@, i as int));
    }
    r
}

/// Two orders are the same, element for element.
fn same_order(a: &[u32], b: &[u32]) -> (r: bool)
    ensures
        r == (a@ == b@),
{
    if a.len() != b.len() {
        return false;
    }
    let n = a.len();
    let mut i: usize = 0;
    while i < n
        invariant
            n == a@.len(),
            n == b@.len(),
            i <= n,
            forall|j: int| 0 <= j < i ==> a@[j] == b@[j],
        decreases n - i,
    {
        if a[i] != b[i] {
            return false;
        }
        i = i + 1;
    }
    assert(a@ =~= b@);
    true
}


/// The entries in the order the strategy asks for.
pub open spec fn arranged(strategy: SortStrategy, s: Seq<DesktopEntryView>) -> Seq<DesktopEntryView> {
    match strategy {
        SortStrategy::Number => s,
        SortStrategy::Name => sort_by_name(s),
        SortStrategy::FocusedFirst => focused_first(s),
    }
}

/// The ids of the entries, in their order.
pub open spec fn order_of(s: Seq<DesktopEntryView>) -> Seq<u32> {
    s.map_values(|e: DesktopEntryView| e.vdesk.id)
}

/// What the caller does to the buttons.
#[derive(Debug)]
pub enum WidgetCommand {
    /// Apply an update to the existing button of a desktop.
    Update { vdesk_id: u32, update: WidgetUpdate },
    /// Create a button for a desktop, put it at `position`, give it a label,
    /// a tooltip and CSS classes, and show it where `visible`.
    Create {
        vdesk_id: u32,
        position: usize,
        label: String,
        tooltip: String,
        classes: Vec<String>,
        visible: bool,
    },
    /// Move buttons to new positions; `optimized` tells whether fewer buttons
    /// move than the new order holds.
    Reorder { moves: Vec<(u32, usize)>, optimized: bool },
}

/// The mathematical value of a command.
pub enum WidgetCommandView {
    Update { vdesk_id: u32, update: WidgetUpdateView },
    Create {
        vdesk_id: u32,
        position: int,
        label: Seq<char>,
        tooltip: Seq<char>,
        classes: Seq<Seq<char>>,
        visible: bool,
    },
    Reorder { moves: Seq<(u32, usize)>, optimized: bool },
}

impl View for WidgetCommand {
    type V = WidgetCommandView;

    open spec fn view(&self) -> WidgetCommandView {
        match self {
            WidgetCommand::Update { vdesk_id, update } => WidgetCommandView::Update {
                vdesk_id: *vdesk_id,
                update: update@,
            },
            WidgetCommand::Create { vdesk_id, position, label, tooltip, classes, visible } =>
                WidgetCommandView::Create {
                vdesk_id: *vdesk_id,
                position: *position as int,
                label: label@,
                tooltip: tooltip@,
                classes: classes@.map_values(|c: String| c@),
                visible: *visible,
            },
            WidgetCommand::Reorder { moves, optimized } => WidgetCommandView::Reorder {
                moves: moves@,
                optimized: *optimized,
            },
        }
    }
}

/// The views of a list of commands.
pub open spec fn commands_view(s: Seq<WidgetCommand>) -> Seq<WidgetCommandView> {
    s.map_values(|c: WidgetCommand| c@)
}

/// The command for one entry, given the buttons so far and the new order,
/// and the buttons after it.
pub open spec fn entry_step(
    widgets: Map<u32, WidgetView>,
    e: DesktopEntryView,
    order: Seq<u32>,
    show_empty: bool,
) -> (WidgetCommandView, Map<u32, WidgetView>) {
    let id = e.vdesk.id;
    if widgets.contains_key(id) {
        (
            WidgetCommandView::Update {
                vdesk_id: id,
                update: widget_update_view(
                    widgets[id],
                    e.vdesk,
                    e.display_text,
                    e.tooltip_text,
                    show_empty,
                ),
            },
            widgets.insert(
                id,
                updated_widget_view(widgets[id], e.vdesk, e.display_text, e.tooltip_text),
            ),
        )
    } else {
        (
            WidgetCommandView::Create {
                vdesk_id: id,
                position: if first_index_of(order, id) >= 0 {
                    first_index_of(order, id)
                } else {
                    0
                },
                label: e.display_text,
                tooltip: e.tooltip_text,
                classes: initial_classes(e.vdesk.focused, e.vdesk.status),
                visible: visible(show_empty, e.vdesk.populated, e.vdesk.focused),
            },
            widgets.insert(id, new_widget_view(e.vdesk, e.display_text, e.tooltip_text)),
        )
    }
}

/// The commands for a list of entries taken in turn, and the buttons after them.
pub open spec fn entry_steps(
    widgets: Map<u32, WidgetView>,
    s: Seq<DesktopEntryView>,
    order: Seq<u32>,
    show_empty: bool,
) -> (Seq<WidgetCommandView>, Map<u32, WidgetView>)
    decreases s.len(),
{
    if s.len() == 0 {
        (seq![], widgets)
    } else {
        let prev = entry_steps(widgets, s.drop_last(), order, show_empty);
        let step = entry_step(prev.1, s.last(), order, show_empty);
        (prev.0.push(step.0), step.1)
    }
}

/// The commands of a whole update of the bar to a list of entries: one per
/// entry, in the arranged order, then a reorder where the order changed.
pub open spec fn update_commands(
    widgets: Map<u32, WidgetView>,
    old_order: Seq<u32>,
    config: ModuleConfig,
    entries: Seq<DesktopEntryView>,
) -> Seq<WidgetCommandView> {
    let a = arranged(config.sort_by, entries);
    let new_order = order_of(a);
    let steps = entry_steps(widgets, a, new_order, config.show_empty).0;
    if new_order == old_order {
        steps
    } else {
        let moves = reorder_moves(old_order, new_order);
        steps.push(WidgetCommandView::Reorder { moves, optimized: moves.len() < new_order.len() })
    }
}

/// Every button is filed under its own desktop's id.
pub open spec fn widgets_filed_by_id(m: Map<u32, WidgetView>) -> bool {
    forall|k: u32| #[trigger] m.contains_key(k) ==> m[k].vdesk_id == k
}

/// Keeps the state of the desktop buttons and their order.
pub struct WidgetManager {
    widgets: BTreeMap<u32, VirtualDesktopWidget>,
    widget_order: Vec<u32>,
    config: ModuleConfig,
}

/// The mathematical value of the widget manager.
pub struct WidgetManagerView {
    pub widgets: Map<u32, WidgetView>,
    pub order: Seq<u32>,
    pub config: ModuleConfig,
}

spec fn widget_views(m: Map<u32, VirtualDesktopWidget>) -> Map<u32, WidgetView> {
    m.map_values(|w: VirtualDesktopWidget| w@)
}

impl View for WidgetManager {
    type V = WidgetManagerView;

    closed spec fn view(&self) -> WidgetManagerView {
        WidgetManagerView {
            widgets: widget_views(self.widgets@),
            order: self.widget_order@,
            config: self.config,
        }
    }
}

fn copy_entry(e: &DesktopEntry) -> (r: DesktopEntry)
    ensures
        r@ == e@,
{
    DesktopEntry {
        vdesk: e.vdesk.duplicate(),
        display_text: copy_string(&e.display_text),
        tooltip_text: copy_string(&e.tooltip_text),
    }
}

impl WidgetManager {
    #[verifier::type_invariant]
    spec fn widgets_keyed_by_id(self) -> bool {
        widgets_filed_by_id(widget_views(self.widgets@))
    }

    /// A manager with no buttons yet.
    pub fn new(config: ModuleConfig) -> (r: Self)
        ensures
            r@.widgets == Map::<u32, WidgetView>::empty(),
            r@.order == Seq::<u32>::empty(),
            r@.config == config,
            widgets_filed_by_id(r@.widgets),
    {
        let r = WidgetManager { widgets: BTreeMap::new(), widget_order: Vec::new(), config };
        assert(r@.widgets =~= Map::<u32, WidgetView>::empty());
        r
    }

    /// The number of buttons.
    pub fn widget_count(&self) -> (r: usize)
        ensures
            r == self@.widgets.dom().len(),
    {
        assert(self@.widgets.dom() =~= self.widgets@.dom());
        self.widgets.len()
    }

    /// Whether the desktop with this id has a button.
    pub fn has_widget(&self, vdesk_id: u32) -> (r: bool)
        ensures
            r == self@.widgets.contains_key(vdesk_id),
    {
        self.widgets.contains_key(&vdesk_id)
    }

    /// The order of the buttons, by desktop id.
    pub fn widget_order(&self) -> (r: &[u32])
        ensures
            r@ == self@.order,
    {
        self.widget_order.as_slice()
    }

    /// The module settings.
    pub fn config(&self) -> (r: &ModuleConfig)
        ensures
            *r == self@.config,
    {
        &self.config
    }

    /// Brings the buttons up to date with the full list of desktops (each with
    /// its label and tooltip): arranges the list as the configuration says,
    /// updates the button of each desktop that has one and creates one (at its
    /// place in the new order) for each that has none, then moves the buttons
    /// whose place changed. Returns what the caller has to do to the buttons.
    pub fn update_widgets(&mut self, all_vdesks: &[DesktopEntry]) -> (r: Vec<WidgetCommand>)
        ensures
            commands_view(r@) == update_commands(
                old(self)@.widgets,
                old(self)@.order,
                old(self)@.config,
                entries_view(all_vdesks@),
            ),
            final(self)@.widgets == entry_steps(
                old(self)@.widgets,
                arranged(old(self)@.config.sort_by, entries_view(all_vdesks@)),
                order_of(arranged(old(self)@.config.sort_by, entries_view(all_vdesks@))),
                old(self)@.config.show_empty,
            ).1,
            final(self)@.order == order_of(
                arranged(old(self)@.config.sort_by, entries_view(all_vdesks@)),
            ),
            final(self)@.config == old(self)@.config,
            widgets_filed_by_id(old(self)@.widgets),
            widgets_filed_by_id(final(self)@.widgets),
    {
        proof {
            use_type_invariant(&*self);
        }
        let ghost old_view = self@;
        // A copy of the list, arranged as configured.
        let n = all_vdesks.len();
        let mut sorted: Vec<DesktopEntry> = Vec::new();
        let mut i: usize = 0;
        while i < n
            invariant
                n == all_vdesks@.len(),
                i <= n,
                entries_view(sorted@) == entries_view(all_vdesks@).take(i as int),
            decreases n - i,
        {
            let c = copy_entry(&all_vdesks[i]);
            assert(c@ == entries_view(all_vdesks@)[i as int]);
            let ghost prev = entries_view(sorted@);
            let ghost cv = c@;
            sorted.push(c);
            assert(entries_view(sorted@) =~= prev.push(cv));
            assert(prev.push(cv) =~= entries_view(all_vdesks@).take(i + 1));
            i = i + 1;
        }
        assert(entries_view(all_vdesks@).take(n as int) =~= entries_view(all_vdesks@));
        let ghost input = entries_view(all_vdesks@);
        match self.config.sort_by {
            SortStrategy::Number => {},
            SortStrategy::Name => {
                sorted = sort_entries_by_name(sorted);
            },
            SortStrategy::FocusedFirst => {
                move_focused_first(&mut sorted);
            },
        }
        let ghost a = entries_view(sorted@);
        assert(a == arranged(self.config.sort_by, input));
        // The new order of the buttons.
        let m = sorted.len();
        let mut new_order: Vec<u32> = Vec::new();
        let mut k: usize = 0;
        while k < m
            invariant
                m == sorted@.len(),
                a == entries_view(sorted@),
                k <= m,
                new_order@ == order_of(a).take(k as int),
            decreases m - k,
        {
            new_order.push(sorted[k].vdesk.id);
            k = k + 1;
            assert(new_order@ =~= order_of(a).take(k as int));
        }
        assert(order_of(a).take(m as int) =~= order_of(a));
        // Update or create the button of each desktop.
        let mut widgets: BTreeMap<u32, VirtualDesktopWidget> = BTreeMap::new();
        std::mem::swap(&mut widgets, &mut self.widgets);
        let mut commands: Vec<WidgetCommand> = Vec::new();
        let show_empty = self.config.show_empty;
        let mut j: usize = 0;
        while j < m
            invariant
                m == sorted@.len(),
                a == entries_view(sorted@),
                new_order@ == order_of(a),
                show_empty == old_view.config.show_empty,
                self.config == old_view.config,
                j <= m,
                widgets_filed_by_id(widget_views(widgets@)),
                commands_view(commands@) == entry_steps(
                    old_view.widgets,
                    a.take(j as int),
                    order_of(a),
                    show_empty,
                ).0,
                widget_views(widgets@) == entry_steps(
                    old_view.widgets,
                    a.take(j as int),
                    order_of(a),
                    show_empty,
                ).1,
            decreases m - j,
        {
            let entry = &sorted[j];
            let id = entry.vdesk.id;
            let ghost before = widget_views(widgets@);
            proof {
                assert(a.take(j + 1).drop_last() =~= a.take(j as int));
                assert(a.take(j + 1).last() == entry@);
            }
            let ghost prev_cmds = commands_view(commands@);
            match widgets.remove(&id) {
                Some(mut widget) => {
                    assert(before.contains_key(id));
                    let update = widget.update_if_changed(
                        &entry.vdesk,
                        copy_string(&entry.display_text),
                        copy_string(&entry.tooltip_text),
                        &self.config,
                    );
                    widgets.insert(id, widget);
                    commands.push(WidgetCommand::Update { vdesk_id: id, update });
                    assert(widget_views(widgets@) =~= before.insert(id, widget@));
                },
                None => {
                    assert(!before.contains_key(id));
                    let widget = VirtualDesktopWidget::new(
                        &entry.vdesk,
                        copy_string(&entry.display_text),
                        copy_string(&entry.tooltip_text),
                        &self.config,
                    );
                    let position = match first_position(new_order.as_slice(), id) {
                        Some(p) => p,
                        None => 0,
                    };
                    let classes = widget.initial_classes();
                    let visible = widget.is_visible(&self.config);
                    commands.push(
                        WidgetCommand::Create {
                            vdesk_id: id,
                            position,
                            label: copy_string(&entry.display_text),
                            tooltip: copy_string(&entry.tooltip_text),
                            classes,
                            visible,
                        },
                    );
                    widgets.insert(id, widget);
                    assert(widget_views(widgets@) =~= before.insert(id, widget_views(widgets@)[id]));
                },
            }
            assert(commands_view(commands@) =~= prev_cmds.push(commands@.last()@));
            j = j + 1;
        }
        assert(a.take(m as int) =~= a);
        self.widgets = widgets;
        // Move the buttons whose place changed.
        if !same_order(new_order.as_slice(), self.widget_order.as_slice()) {
            let moves = compute_reorder_moves(self.widget_order.as_slice(), new_order.as_slice());
            let optimized = moves.len() < new_order.len();
            let ghost before_cmds = commands_view(commands@);
            commands.push(WidgetCommand::Reorder { moves, optimized });
            assert(commands_view(commands@) =~= before_cmds.push(commands@.last()@));
            self.widget_order = new_order;
        }
        commands
    }
}


/// Updating a button twice to the same desktop and texts: the second update
/// asks for nothing and reports no change, and leaves the button as it was.
pub proof fn lemma_update_twice_changes_nothing(
    w: WidgetView,
    vdesk: VirtualDesktopView,
    display_text: Seq<char>,
    tooltip_text: Seq<char>,
    show_empty: bool,
)
    ensures
        ({
            let w2 = updated_widget_view(w, vdesk, display_text, tooltip_text);
            &&& widget_update_view(w2, vdesk, display_text, tooltip_text, show_empty)
                == WidgetUpdateView {
                updated: false,
                label: None,
                tooltip: None,
                visible: None,
                class_ops: seq![],
            }
            &&& updated_widget_view(w2, vdesk, display_text, tooltip_text) == w2
        }),
{
    let w2 = updated_widget_view(w, vdesk, display_text, tooltip_text);
    assert(focus_ops(w2.focused, vdesk.focused) =~= seq![]);
    assert(status_ops(w2.status, vdesk.status) =~= seq![]);
    assert(status_focus_ops(w2.status, w2.focused, vdesk.status, vdesk.focused) =~= seq![]);
    assert(widget_update_view(w2, vdesk, display_text, tooltip_text, show_empty).class_ops
        =~= seq![]);
}

/// Entry `i` is the last one in the list for its desktop.
pub open spec fn is_last_for_id(s: Seq<DesktopEntryView>, i: int) -> bool {
    forall|j: int| i < j < s.len() ==> (#[trigger] s[j]).vdesk.id != s[i].vdesk.id
}

/// The ids of the desktops in a list of entries.
pub open spec fn entry_ids(s: Seq<DesktopEntryView>) -> Set<u32> {
    Set::new(|id: u32| exists|i: int| 0 <= i < s.len() && s[i].vdesk.id == id)
}

/// After the buttons are brought up to date with a list of entries, every
/// desktop of the list has a button that shows the last entry for it, buttons
/// of other desktops are as they were, and there is one command per entry.
pub proof fn lemma_entry_steps_reflect_entries(
    widgets: Map<u32, WidgetView>,
    s: Seq<DesktopEntryView>,
    order: Seq<u32>,
    show_empty: bool,
)
    requires
        widgets_filed_by_id(widgets),
    ensures
        ({
            let r = entry_steps(widgets, s, order, show_empty);
            &&& r.0.len() == s.len()
            &&& widgets_filed_by_id(r.1)
            &&& r.1.dom() == widgets.dom().union(entry_ids(s))
            &&& forall|i: int|
                0 <= i < s.len() && is_last_for_id(s, i) ==> r.1[s[i].vdesk.id]
                    == new_widget_view(s[i].vdesk, s[i].display_text, s[i].tooltip_text)
            &&& forall|k: u32| #[trigger] widgets.contains_key(k) && !entry_ids(s).contains(k)
                ==> r.1[k] == widgets[k]
        }),
    decreases s.len(),
{
    if s.len() > 0 {
        let t = s.drop_last();
        lemma_entry_steps_reflect_entries(widgets, t, order, show_empty);
        let prev = entry_steps(widgets, t, order, show_empty);
        let e = s.last();
        let r = entry_steps(widgets, s, order, show_empty);
        assert(r.1.dom() =~= widgets.dom().union(entry_ids(s))) by {
            assert forall|k: u32| r.1.dom().contains(k) <==> widgets.dom().union(entry_ids(s)).contains(k) by {
                if entry_ids(t).contains(k) {
                    let i = choose|i: int| 0 <= i < t.len() && t[i].vdesk.id == k;
                    assert(s[i].vdesk.id == k);
                }
                if k == e.vdesk.id {
                    assert(s[s.len() - 1].vdesk.id == k);
                }
                if entry_ids(s).contains(k) && k != e.vdesk.id {
                    let i = choose|i: int| 0 <= i < s.len() && s[i].vdesk.id == k;
                    assert(t[i].vdesk.id == k);
                }
            }
        }
        assert forall|i: int| 0 <= i < s.len() && is_last_for_id(s, i) implies r.1[s[i].vdesk.id]
            == new_widget_view(s[i].vdesk, s[i].display_text, s[i].tooltip_text) by {
            if i < s.len() - 1 {
                assert(s[s.len() - 1].vdesk.id != s[i].vdesk.id);
                assert(is_last_for_id(t, i)) by {
                    assert forall|j: int| i < j < t.len() implies (#[trigger] t[j]).vdesk.id
                        != t[i].vdesk.id by {
                        assert(t[j] == s[j]);
                    }
                }
            }
        }
        assert forall|k: u32| #[trigger] widgets.contains_key(k) && !entry_ids(s).contains(k)
            implies r.1[k] == widgets[k] by {
            assert(s[s.len() - 1].vdesk.id == e.vdesk.id);
            if entry_ids(t).contains(k) {
                let i = choose|i: int| 0 <= i < t.len() && t[i].vdesk.id == k;
                assert(s[i].vdesk.id == k);
            }
        }
    }
}

/// An update of an existing button in which nothing changed.
pub open spec fn is_quiet_update(c: WidgetCommandView) -> bool {
    c matches WidgetCommandView::Update { update, .. } && !update.updated
}

/// The desktops of the list are all different.
pub open spec fn distinct_ids(s: Seq<DesktopEntryView>) -> bool {
    forall|i: int, j: int| 0 <= i < j < s.len() ==> s[i].vdesk.id != s[j].vdesk.id
}

proof fn lemma_entry_steps_len(
    widgets: Map<u32, WidgetView>,
    s: Seq<DesktopEntryView>,
    order: Seq<u32>,
    show_empty: bool,
)
    ensures
        entry_steps(widgets, s, order, show_empty).0.len() == s.len(),
    decreases s.len(),
{
    if s.len() > 0 {
        lemma_entry_steps_len(widgets, s.drop_last(), order, show_empty);
    }
}

proof fn lemma_second_pass_prefix(
    m: Map<u32, WidgetView>,
    s: Seq<DesktopEntryView>,
    order: Seq<u32>,
    show_empty: bool,
    j: int,
)
    requires
        0 <= j <= s.len(),
        forall|i: int|
            0 <= i < s.len() ==> m.contains_key(#[trigger] s[i].vdesk.id) && m[s[i].vdesk.id]
                == new_widget_view(s[i].vdesk, s[i].display_text, s[i].tooltip_text),
    ensures
        entry_steps(m, s.take(j), order, show_empty).1 == m,
        forall|c: int|
            0 <= c < j ==> is_quiet_update(
                #[trigger] entry_steps(m, s.take(j), order, show_empty).0[c],
            ),
    decreases j,
{
    if j > 0 {
        lemma_second_pass_prefix(m, s, order, show_empty, j - 1);
        assert(s.take(j).drop_last() =~= s.take(j - 1));
        let e = s[j - 1];
        assert(s.take(j).last() == e);
        let w = m[e.vdesk.id];
        lemma_update_twice_changes_nothing(w, e.vdesk, e.display_text, e.tooltip_text, show_empty);
        assert(updated_widget_view(w, e.vdesk, e.display_text, e.tooltip_text) == w);
        assert(m.insert(e.vdesk.id, w) =~= m);
        let prev = entry_steps(m, s.take(j - 1), order, show_empty);
        let cur = entry_steps(m, s.take(j), order, show_empty);
        lemma_entry_steps_len(m, s.take(j - 1), order, show_empty);
        let step = entry_step(m, e, order, show_empty);
        assert(cur.0 == prev.0.push(step.0));
        assert(is_quiet_update(step.0));
        assert forall|c: int| 0 <= c < j implies is_quiet_update(#[trigger] cur.0[c]) by {
            if c < j - 1 {
                assert(cur.0[c] == prev.0[c]);
            }
        }
    }
}

/// Bringing the buttons up to date twice with the same list of distinct
/// desktops: the second pass changes no button and only reports updates in
/// which nothing changed.
pub proof fn lemma_second_update_changes_nothing(
    widgets: Map<u32, WidgetView>,
    s: Seq<DesktopEntryView>,
    order: Seq<u32>,
    show_empty: bool,
)
    requires
        widgets_filed_by_id(widgets),
        distinct_ids(s),
    ensures
        ({
            let first = entry_steps(widgets, s, order, show_empty).1;
            let second = entry_steps(first, s, order, show_empty);
            &&& second.1 == first
            &&& forall|c: int|
                0 <= c < second.0.len() ==> is_quiet_update(#[trigger] second.0[c])
        }),
{
    lemma_entry_steps_reflect_entries(widgets, s, order, show_empty);
    let first = entry_steps(widgets, s, order, show_empty).1;
    assert forall|i: int| 0 <= i < s.len() implies first.contains_key(#[trigger] s[i].vdesk.id)
        && first[s[i].vdesk.id] == new_widget_view(
        s[i].vdesk,
        s[i].display_text,
        s[i].tooltip_text,
    ) by {
        assert(is_last_for_id(s, i));
        assert(entry_ids(s).contains(s[i].vdesk.id));
    }
    lemma_second_pass_prefix(first, s, order, show_empty, s.len() as int);
    assert(s.take(s.len() as int) =~= s);
    lemma_entry_steps_reflect_entries(first, s, order, show_empty);
}

/// Going from an order to itself moves nothing.
pub proof fn lemma_no_moves_for_same_order(order: Seq<u32>)
    ensures
        reorder_moves(order, order) == Seq::<(u32, usize)>::empty(),
{
    lemma_moves_upto_same(order, order.len() as int);
}

proof fn lemma_moves_upto_same(order: Seq<u32>, k: int)
    requires
        k <= order.len(),
    ensures
        moves_upto(order, order, k) == Seq::<(u32, usize)>::empty(),
    decreases k,
{
    if k > 0 {
        lemma_moves_upto_same(order, k - 1);
        assert(moves_upto(order, order, k) =~= Seq::<(u32, usize)>::empty());
    }
}

/// At most one move per position of the target order, each to a position of it.
pub proof fn lemma_moves_bounded(current: Seq<u32>, target: Seq<u32>)
    requires
        target.len() <= usize::MAX,
    ensures
        reorder_moves(current, target).len() <= target.len(),
        forall|m: int|
            0 <= m < reorder_moves(current, target).len() ==> (#[trigger] reorder_moves(
                current,
                target,
            )[m]).1 < target.len() && target[reorder_moves(current, target)[m].1 as int]
                == reorder_moves(current, target)[m].0,
{
    lemma_moves_upto_bounded(current, target, target.len() as int);
}

proof fn lemma_moves_upto_bounded(current: Seq<u32>, target: Seq<u32>, k: int)
    requires
        0 <= k <= target.len(),
        target.len() <= usize::MAX,
    ensures
        moves_upto(current, target, k).len() <= k,
        forall|m: int|
            0 <= m < moves_upto(current, target, k).len() ==> (#[trigger] moves_upto(
                current,
                target,
                k,
            )[m]).1 < k && target[moves_upto(current, target, k)[m].1 as int] == moves_upto(
                current,
                target,
                k,
            )[m].0,
    decreases k,
{
    if k > 0 {
        lemma_moves_upto_bounded(current, target, k - 1);
    }
}

proof fn lemma_last_index_unique(s: Seq<u32>, i: int)
    requires
        0 <= i < s.len(),
        s.no_duplicates(),
    ensures
        last_index_of(s, s[i]) == i,
{
    lemma_last_index_of(s, s[i]);
    let l = last_index_of(s, s[i]);
    if l != i {
        assert(s[l] == s[i]);
    }
}

proof fn lemma_last_index_absent(s: Seq<u32>, x: u32)
    requires
        !s.contains(x),
    ensures
        last_index_of(s, x) == -1,
{
    lemma_last_index_of(s, x);
    if last_index_of(s, x) >= 0 {
        assert(s[last_index_of(s, x)] == x);
    }
}

/// For orders without repeated ids: a widget moves to position `p` exactly
/// when the target order puts it at `p` and the current order holds it at
/// another position.
pub proof fn lemma_moves_of_distinct_orders(current: Seq<u32>, target: Seq<u32>, p: int)
    requires
        current.no_duplicates(),
        target.no_duplicates(),
        0 <= p < target.len(),
        target.len() <= usize::MAX,
    ensures
        reorder_moves(current, target).contains((target[p], p as usize)) <==> (exists|q: int|
            0 <= q < current.len() && current[q] == target[p] && q != p),
{
    lemma_moves_upto_contains(current, target, target.len() as int, p);
    lemma_last_index_unique(target, p);
    if exists|q: int| 0 <= q < current.len() && current[q] == target[p] && q != p {
        let q = choose|q: int| 0 <= q < current.len() && current[q] == target[p] && q != p;
        lemma_last_index_unique(current, q);
    } else {
        if current.contains(target[p]) {
            let q = choose|q: int| 0 <= q < current.len() && current[q] == target[p];
            lemma_last_index_unique(current, q);
        } else {
            lemma_last_index_absent(current, target[p]);
        }
    }
}

proof fn lemma_moves_upto_contains(current: Seq<u32>, target: Seq<u32>, k: int, p: int)
    requires
        0 <= p < k <= target.len(),
        target.len() <= usize::MAX,
    ensures
        moves_upto(current, target, k).contains((target[p], p as usize)) <==> needs_move(
            current,
            target,
            p,
        ),
    decreases k,
{
    lemma_moves_upto_bounded(current, target, k - 1);
    let prev = moves_upto(current, target, k - 1);
    let cur = moves_upto(current, target, k);
    if p < k - 1 {
        lemma_moves_upto_contains(current, target, k - 1, p);
        if cur.contains((target[p], p as usize)) {
            let m = choose|m: int| 0 <= m < cur.len() && cur[m] == (target[p], p as usize);
            if m >= prev.len() {
                assert(cur[m].1 == (k - 1) as usize);
            } else {
                assert(prev[m] == cur[m]);
            }
        }
        if prev.contains((target[p], p as usize)) {
            let m = choose|m: int| 0 <= m < prev.len() && prev[m] == (target[p], p as usize);
            assert(cur[m] == prev[m]);
        }
    } else {
        if needs_move(current, target, p) {
            assert(cur[prev.len() as int] == (target[p], p as usize));
        }
        if cur.contains((target[p], p as usize)) {
            let m = choose|m: int| 0 <= m < cur.len() && cur[m] == (target[p], p as usize);
            if m < prev.len() {
                assert(prev[m].1 < k - 1);
            }
        }
    }
}


/// What a button shows: its label, tooltip, visibility and desktop CSS classes.
pub struct ButtonView {
    pub label: Seq<char>,
    pub tooltip: Seq<char>,
    pub visible: bool,
    pub classes: Set<Seq<char>>,
}

/// The button a new widget in state `w` gets under the given `show_empty`.
pub open spec fn button_of(w: WidgetView, show_empty: bool) -> ButtonView {
    ButtonView {
        label: w.display_text,
        tooltip: w.tooltip_text,
        visible: visible(show_empty, w.populated, w.focused),
        classes: initial_classes(w.focused, w.status).to_set(),
    }
}

/// A set of CSS classes after a list of class changes, applied in order.
pub open spec fn apply_class_ops(classes: Set<Seq<char>>, ops: Seq<ClassOpView>) -> Set<Seq<char>>
    decreases ops.len(),
{
    if ops.len() == 0 {
        classes
    } else {
        let before = apply_class_ops(classes, ops.drop_last());
        match ops.last() {
            ClassOpView::Add(c) => before.insert(c),
            ClassOpView::Remove(c) => before.remove(c),
        }
    }
}

/// A button after an update is applied to it.
pub open spec fn apply_update(b: ButtonView, u: WidgetUpdateView) -> ButtonView {
    ButtonView {
        label: match u.label {
            Some(l) => l,
            None => b.label,
        },
        tooltip: match u.tooltip {
            Some(t) => t,
            None => b.tooltip,
        },
        visible: match u.visible {
            Some(v) => v,
            None => b.visible,
        },
        classes: apply_class_ops(b.classes, u.class_ops),
    }
}

/// The status class of the new status is not the status-and-focus class of
/// the old one (as with status "a" focused, then status "a-focused"); where it
/// is, the swap of status-and-focus classes removes the new status class.
pub open spec fn status_classes_apart(
    old_status: Seq<char>,
    old_focused: bool,
    new_status: Seq<char>,
) -> bool {
    old_status.len() > 0 && new_status.len() > 0 ==> status_class(new_status)
        != status_focus_class(old_status, old_focused)
}

proof fn lemma_apply_class_ops_append(
    classes: Set<Seq<char>>,
    a: Seq<ClassOpView>,
    b: Seq<ClassOpView>,
)
    ensures
        apply_class_ops(classes, a + b) == apply_class_ops(apply_class_ops(classes, a), b),
    decreases b.len(),
{
    if b.len() == 0 {
        assert(a + b =~= a);
    } else {
        lemma_apply_class_ops_append(classes, a, b.drop_last());
        assert((a + b).drop_last() =~= a + b.drop_last());
        assert((a + b).last() == b.last());
    }
}

proof fn lemma_class_names_differ(f: bool, g: bool, s: Seq<char>, t: Seq<char>)
    ensures
        focus_class(f) != status_class(s),
        focus_class(f) != status_focus_class(t, g),
        status_class(s) != status_focus_class(s, g),
        focus_class(true) != focus_class(false),
{
    reveal_strlit("vdesk-focused");
    reveal_strlit("vdesk-unfocused");
    reveal_strlit("vdesk-status-");
    reveal_strlit("-");
    reveal_strlit("focused");
    reveal_strlit("unfocused");
    assert(status_class(s)[6] == 's');
    assert(status_focus_class(t, g)[6] == 's');
    assert(focus_class(f)[6] != 's');
    assert(status_focus_class(s, g).len() > status_class(s).len());
    assert(focus_class(true).len() != focus_class(false).len());
}

proof fn lemma_apply_one(c: Set<Seq<char>>, op: ClassOpView)
    ensures
        apply_class_ops(c, seq![op]) == match op {
            ClassOpView::Add(x) => c.insert(x),
            ClassOpView::Remove(x) => c.remove(x),
        },
{
    let ops = seq![op];
    assert(ops.drop_last() =~= Seq::<ClassOpView>::empty());
    assert(apply_class_ops(c, ops.drop_last()) == c);
    assert(ops.last() == op);
    assert(ops.len() == 1);
}

proof fn lemma_apply_pair(c: Set<Seq<char>>, a: Seq<ClassOpView>, b: Seq<ClassOpView>)
    requires
        a.len() <= 1,
        b.len() <= 1,
    ensures
        apply_class_ops(c, a + b) == apply_class_ops(apply_class_ops(c, a), b),
        a.len() == 1 ==> apply_class_ops(c, a) == match a[0] {
            ClassOpView::Add(x) => c.insert(x),
            ClassOpView::Remove(x) => c.remove(x),
        },
        a.len() == 0 ==> apply_class_ops(c, a) == c,
        b.len() == 1 ==> apply_class_ops(apply_class_ops(c, a), b) == match b[0] {
            ClassOpView::Add(x) => apply_class_ops(c, a).insert(x),
            ClassOpView::Remove(x) => apply_class_ops(c, a).remove(x),
        },
        b.len() == 0 ==> apply_class_ops(apply_class_ops(c, a), b) == apply_class_ops(c, a),
{
    lemma_apply_class_ops_append(c, a, b);
    if a.len() == 1 {
        assert(a =~= seq![a[0]]);
        lemma_apply_one(c, a[0]);
    }
    if b.len() == 1 {
        assert(b =~= seq![b[0]]);
        lemma_apply_one(apply_class_ops(c, a), b[0]);
    }
}

proof fn lemma_initial_class_set(f: bool, s: Seq<char>)
    ensures
        initial_classes(f, s).to_set() == (if s.len() == 0 {
            set![focus_class(f)]
        } else {
            set![focus_class(f), status_class(s), status_focus_class(s, f)]
        }),
{
    let q = initial_classes(f, s);
    let e: Set<Seq<char>> = if s.len() == 0 {
        set![focus_class(f)]
    } else {
        set![focus_class(f), status_class(s), status_focus_class(s, f)]
    };
    assert forall|x: Seq<char>| q.to_set().contains(x) <==> e.contains(x) by {
        if e.contains(x) {
            if x == focus_class(f) {
                assert(q[0] == x);
            } else if x == status_class(s) {
                assert(q[1] == x);
            } else {
                assert(q[2] == x);
            }
        }
    }
    assert(q.to_set() =~= e);
}

/// Updating a widget keeps its button in step: applying the update's
/// changes to the button that matched the old state gives the button a new
/// widget in the updated state would get (label, tooltip, visibility and CSS
/// classes), unless the new status class coincides with the old
/// status-and-focus class.
pub proof fn lemma_update_keeps_button_in_step(
    w: WidgetView,
    vdesk: VirtualDesktopView,
    display_text: Seq<char>,
    tooltip_text: Seq<char>,
    show_empty: bool,
)
    requires
        status_classes_apart(w.status, w.focused, vdesk.status),
    ensures
        apply_update(
            button_of(w, show_empty),
            widget_update_view(w, vdesk, display_text, tooltip_text, show_empty),
        ) == button_of(
            updated_widget_view(w, vdesk, display_text, tooltip_text),
            show_empty,
        ),
{
    let of = w.focused;
    let nf = vdesk.focused;
    let os = w.status;
    let ns = vdesk.status;
    lemma_class_names_differ(of, of, os, os);
    lemma_class_names_differ(nf, nf, ns, ns);
    lemma_class_names_differ(of, nf, ns, ns);
    lemma_class_names_differ(nf, of, os, os);
    lemma_class_names_differ(of, of, ns, ns);
    lemma_class_names_differ(nf, nf, os, os);
    lemma_class_names_differ(of, nf, os, ns);
    lemma_class_names_differ(nf, of, ns, os);
    lemma_initial_class_set(of, os);
    lemma_initial_class_set(nf, ns);
    let s0 = initial_classes(of, os).to_set();
    let fo = focus_ops(of, nf);
    let so = status_ops(os, ns);
    let co = status_focus_ops(os, of, ns, nf);
    lemma_apply_class_ops_append(s0, fo + so, co);
    lemma_apply_class_ops_append(s0, fo, so);
    let s1 = apply_class_ops(s0, fo);
    let s2 = apply_class_ops(s1, so);
    let s3 = apply_class_ops(s2, co);
    let target = initial_classes(nf, ns).to_set();
    // The focus class.
    if of != nf {
        assert(fo =~= seq![ClassOpView::Remove(focus_class(of))] + seq![
            ClassOpView::Add(focus_class(nf)),
        ]);
        lemma_apply_pair(
            s0,
            seq![ClassOpView::Remove(focus_class(of))],
            seq![ClassOpView::Add(focus_class(nf))],
        );
    }
    let st: Set<Seq<char>> = if os.len() == 0 {
        set![]
    } else {
        set![status_class(os), status_focus_class(os, of)]
    };
    assert(s0 =~= set![focus_class(of)].union(st));
    assert(s1 =~= set![focus_class(nf)].union(st));
    // The status classes.
    let r1: Seq<ClassOpView> = if os.len() == 0 {
        seq![]
    } else {
        seq![ClassOpView::Remove(status_class(os))]
    };
    let a1: Seq<ClassOpView> = if ns.len() == 0 {
        seq![]
    } else {
        seq![ClassOpView::Add(status_class(ns))]
    };
    let st2: Set<Seq<char>> = if os == ns {
        st
    } else {
        let x: Set<Seq<char>> = if os.len() == 0 {
            set![]
        } else {
            set![status_focus_class(os, of)]
        };
        if ns.len() == 0 {
            x
        } else {
            x.insert(status_class(ns))
        }
    };
    if os != ns {
        assert(so == r1 + a1);
        lemma_apply_pair(s1, r1, a1);
    }
    assert(s2 =~= set![focus_class(nf)].union(st2));
    // The status-and-focus classes.
    let r2: Seq<ClassOpView> = if os.len() == 0 {
        seq![]
    } else {
        seq![ClassOpView::Remove(status_focus_class(os, of))]
    };
    let a2: Seq<ClassOpView> = if ns.len() == 0 {
        seq![]
    } else {
        seq![ClassOpView::Add(status_focus_class(ns, nf))]
    };
    if !(os == ns && of == nf) {
        assert(co == r2 + a2);
        lemma_apply_pair(s2, r2, a2);
    }
    assert(s3 =~= target);
    let u = widget_update_view(w, vdesk, display_text, tooltip_text, show_empty);
    assert(u.class_ops == fo + so + co);
}


/// A button is shown exactly when empty desktops are shown, or its desktop is
/// populated, or it is focused; showing empty desktops shows every button.
pub proof fn lemma_visibility_rule(show_empty: bool, populated: bool, focused: bool)
    ensures
        visible(show_empty, populated, focused) == (show_empty || populated || focused),
        visible(true, populated, focused),
        !visible(false, false, false),
{
}

/// The CSS classes of a new button: `vdesk-focused` or `vdesk-unfocused`,
/// then, where the status is not empty, `vdesk-status-<status in lower case>`
/// and that followed by `-focused` or `-unfocused`.
pub proof fn lemma_initial_classes_content(focused: bool, status: Seq<char>)
    ensures
        initial_classes(focused, status).len() == (if status.len() == 0 {
            1int
        } else {
            3int
        }),
        initial_classes(focused, status)[0] == (if focused {
            "vdesk-focused"@
        } else {
            "vdesk-unfocused"@
        }),
        status.len() > 0 ==> initial_classes(focused, status)[1] == "vdesk-status-"@
            + lowercase_text(status),
        status.len() > 0 ==> initial_classes(focused, status)[2] == "vdesk-status-"@
            + lowercase_text(status) + "-"@ + (if focused {
            "focused"@
        } else {
            "unfocused"@
        }),
{
}

/// A desktop without a button gets one: a create command for its id with its
/// label and tooltip, the classes of a new button, shown as the visibility rule
/// says, at the first place its id takes in the new order; the buttons then
/// hold a new button for it.
pub proof fn lemma_new_desktop_gets_a_button(
    widgets: Map<u32, WidgetView>,
    e: DesktopEntryView,
    order: Seq<u32>,
    show_empty: bool,
)
    requires
        !widgets.contains_key(e.vdesk.id),
        order.contains(e.vdesk.id),
    ensures
        ({
            let (c, m) = entry_step(widgets, e, order, show_empty);
            &&& c matches WidgetCommandView::Create {
                vdesk_id,
                position,
                label,
                tooltip,
                classes,
                visible,
            } && vdesk_id == e.vdesk.id && 0 <= position < order.len() && order[position]
                == e.vdesk.id && (forall|j: int| 0 <= j < position ==> order[j] != e.vdesk.id)
                && label == e.display_text && tooltip == e.tooltip_text && classes
                == initial_classes(e.vdesk.focused, e.vdesk.status) && classes[0] == (
            if e.vdesk.focused {
                "vdesk-focused"@
            } else {
                "vdesk-unfocused"@
            }) && visible == (show_empty || e.vdesk.populated || e.vdesk.focused)
            &&& m == widgets.insert(
                e.vdesk.id,
                WidgetView {
                    vdesk_id: e.vdesk.id,
                    display_text: e.display_text,
                    tooltip_text: e.tooltip_text,
                    focused: e.vdesk.focused,
                    populated: e.vdesk.populated,
                    status: e.vdesk.status,
                },
            )
        }),
{
    lemma_first_index_of(order, e.vdesk.id);
    let k = choose|k: int| 0 <= k < order.len() && order[k] == e.vdesk.id;
    if first_index_of(order, e.vdesk.id) < 0 {
        assert(order[k] != e.vdesk.id);
    }
    lemma_initial_classes_content(e.vdesk.focused, e.vdesk.status);
}

/// A desktop with a button gets an update of that button, and the button then
/// shows the desktop's state and texts.
pub proof fn lemma_known_desktop_is_updated(
    widgets: Map<u32, WidgetView>,
    e: DesktopEntryView,
    order: Seq<u32>,
    show_empty: bool,
)
    requires
        widgets.contains_key(e.vdesk.id),
        widgets_filed_by_id(widgets),
    ensures
        ({
            let (c, m) = entry_step(widgets, e, order, show_empty);
            &&& c matches WidgetCommandView::Update { vdesk_id, update } && vdesk_id == e.vdesk.id
                && update == widget_update_view(
                widgets[e.vdesk.id],
                e.vdesk,
                e.display_text,
                e.tooltip_text,
                show_empty,
            )
            &&& m == widgets.insert(
                e.vdesk.id,
                WidgetView {
                    vdesk_id: e.vdesk.id,
                    display_text: e.display_text,
                    tooltip_text: e.tooltip_text,
                    focused: e.vdesk.focused,
                    populated: e.vdesk.populated,
                    status: e.vdesk.status,
                },
            )
        }),
{
}

/// An update reports a change exactly when something about the desktop or its
/// texts changed, and whenever it asks anything of the button; it asks for a
/// new label or tooltip exactly when that text changed, and for a new
/// visibility exactly when the visibility rule flips.
pub proof fn lemma_update_reports_changes(
    w: WidgetView,
    vdesk: VirtualDesktopView,
    display_text: Seq<char>,
    tooltip_text: Seq<char>,
    show_empty: bool,
)
    ensures
        ({
            let u = widget_update_view(w, vdesk, display_text, tooltip_text, show_empty);
            &&& u.updated <==> (w.display_text != display_text || w.tooltip_text != tooltip_text
                || w.focused != vdesk.focused || w.populated != vdesk.populated || w.status
                != vdesk.status)
            &&& (u.label is Some || u.tooltip is Some || u.visible is Some || u.class_ops.len() > 0)
                ==> u.updated
            &&& (u.label is Some <==> w.display_text != display_text)
            &&& (u.label matches Some(l) ==> l == display_text)
            &&& (u.tooltip is Some <==> w.tooltip_text != tooltip_text)
            &&& (u.tooltip matches Some(t) ==> t == tooltip_text)
            &&& (u.visible is Some <==> ((show_empty || w.populated || w.focused) != (show_empty
                || vdesk.populated || vdesk.focused)))
            &&& (u.visible matches Some(v) ==> v == (show_empty || vdesk.populated
                || vdesk.focused))
            &&& (w.focused == vdesk.focused && w.status == vdesk.status) ==> u.class_ops.len() == 0
        }),
{
    let u = widget_update_view(w, vdesk, display_text, tooltip_text, show_empty);
    if w.focused == vdesk.focused && w.status == vdesk.status {
        assert(focus_ops(w.focused, vdesk.focused) =~= seq![]);
        assert(status_ops(w.status, vdesk.status) =~= seq![]);
        assert(status_focus_ops(w.status, w.focused, vdesk.status, vdesk.focused) =~= seq![]);
        assert(u.class_ops =~= seq![]);
    }
}


/// A whole update gives one command per desktop in the arranged order, then a
/// reorder exactly when the new order differs from the old one; the reorder
/// moves the buttons whose place changed and counts as optimized when fewer
/// buttons move than the new order holds. The order by number keeps the
/// desktops as listed.
pub proof fn lemma_update_commands_shape(
    widgets: Map<u32, WidgetView>,
    old_order: Seq<u32>,
    config: ModuleConfig,
    entries: Seq<DesktopEntryView>,
)
    ensures
        ({
            let a = arranged(config.sort_by, entries);
            let new_order = order_of(a);
            let cmds = update_commands(widgets, old_order, config, entries);
            &&& config.sort_by == SortStrategy::Number ==> a == entries
            &&& new_order == old_order ==> cmds.len() == a.len()
            &&& new_order != old_order ==> cmds.len() == a.len() + 1 && cmds.last()
                == WidgetCommandView::Reorder {
                moves: reorder_moves(old_order, new_order),
                optimized: reorder_moves(old_order, new_order).len() < new_order.len(),
            }
            &&& forall|i: int| 0 <= i < a.len() ==> !(#[trigger] cmds[i] is Reorder)
        }),
{
    let a = arranged(config.sort_by, entries);
    let new_order = order_of(a);
    let steps = entry_steps(widgets, a, new_order, config.show_empty);
    lemma_entry_steps_len(widgets, a, new_order, config.show_empty);
    lemma_entry_steps_kinds(widgets, a, new_order, config.show_empty);
    let cmds = update_commands(widgets, old_order, config, entries);
    assert forall|i: int| 0 <= i < a.len() implies !(#[trigger] cmds[i] is Reorder) by {
        assert(cmds[i] == steps.0[i]);
    }
}

proof fn lemma_entry_steps_kinds(
    widgets: Map<u32, WidgetView>,
    s: Seq<DesktopEntryView>,
    order: Seq<u32>,
    show_empty: bool,
)
    ensures
        forall|i: int|
            0 <= i < entry_steps(widgets, s, order, show_empty).0.len() ==> !(#[trigger] entry_steps(
                widgets,
                s,
                order,
                show_empty,
            ).0[i] is Reorder),
    decreases s.len(),
{
    if s.len() > 0 {
        lemma_entry_steps_kinds(widgets, s.drop_last(), order, show_empty);
        lemma_entry_steps_len(widgets, s.drop_last(), order, show_empty);
        let prev = entry_steps(widgets, s.drop_last(), order, show_empty);
        let cur = entry_steps(widgets, s, order, show_empty);
        assert forall|i: int| 0 <= i < cur.0.len() implies !(#[trigger] cur.0[i] is Reorder) by {
            if i < prev.0.len() {
                assert(cur.0[i] == prev.0[i]);
            }
        }
    }
}

} // verus!
