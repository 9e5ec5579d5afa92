//! Virtual desktops and the manager that tracks the state Hyprland reports.

use std::collections::HashMap;
use vstd::prelude::*;
use crate::hyprland::HyprlandIPC;

verus! {

broadcast use vstd::std_specs::hash::group_hash_axioms;

/// One virtual desktop as Hyprland reports it.
#[derive(Debug, Clone)]
pub struct VirtualDesktop {
    pub id: u32,
    pub name: String,
    pub focused: bool,
    pub populated: bool,
    /// The number of windows on the desktop (`windows` in Hyprland's JSON).
    pub window_count: u32,
    pub workspaces: Vec<u32>,
    pub status: String,
}

/// The mathematical value of a virtual desktop.
pub struct VirtualDesktopView {
    pub id: u32,
    pub name: Seq<char>,
    pub focused: bool,
    pub populated: bool,
    pub window_count: u32,
    pub workspaces: Seq<u32>,
    pub status: Seq<char>,
}

impl View for VirtualDesktop {
    type V = VirtualDesktopView;

    open spec fn view(&self) -> VirtualDesktopView {
        VirtualDesktopView {
            id: self.id,
            name: self.name@,
            focused: self.focused,
            populated: self.populated,
            window_count: self.window_count,
            workspaces: self.workspaces@,
            status: self.status@,
        }
    }
}

/// The sequence is in strictly increasing order.
pub open spec fn strictly_increasing(s: Seq<u32>) -> bool {
    forall|i: int, j: int| 0 <= i < j < s.len() ==> s[i] < s[j]
}

/// Files `x` into a strictly increasing list, unless it is there already.
fn insert_sorted_unique(v: &mut Vec<u32>, x: u32)
    requires
        strictly_increasing(old(v)@),
    ensures
        strictly_increasing(final(v)@),
        final(v)@.to_set() == old(v)@.to_set().insert(x),
{
    let n = v.len();
    let mut p: usize = 0;
    while p < n && v[p] < x
        invariant
            n == v@.len(),
            p <= n,
            forall|j: int| 0 <= j < p ==> v@[j] < x,
        decreases n - p,
    {
        p = p + 1;
    }
    if p < n && v[p] == x {
        assert(old(v)@.to_set().insert(x) =~= old(v)@.to_set()) by {
            assert(old(v)@.to_set().contains(old(v)@[p as int]));
        }
        return;
    }
    let ghost before = v@;
    v.insert(p, x);
    assert forall|e: u32| #[trigger] v@.to_set().contains(e) <==> before.to_set().insert(x).contains(e) by {
        if v@.to_set().contains(e) {
            let k = choose|k: int| 0 <= k < v@.len() && v@[k] == e;
            if k < p {
                assert(before[k] == e);
            } else if k > p {
                assert(before[k - 1] == e);
            }
        }
        if before.to_set().contains(e) {
            let k = choose|k: int| 0 <= k < before.len() && before[k] == e;
            if k < p {
                assert(v@[k] == e);
            } else {
                assert(v@[k + 1] == e);
            }
        }
        if e == x {
            assert(v@[p as int] == x);
        }
    }
    assert(v@.to_set() =~= before.to_set().insert(x));
}

fn copy_u32s(v: &Vec<u32>) -> (r: Vec<u32>)
    ensures
        r@ == v@,
{
    let mut r: Vec<u32> = Vec::new();
    let n = v.len();
    let mut i: usize = 0;
    while i < n
        invariant
            n == v@.len(),
            i <= n,
            r@ == v@.take(i as int),
        decreases n - i,
    {
        r.push(v[i]);
        i = i + 1;
        assert(r@ =~= v@.take(i as int));
    }
    assert(v@.take(n as int) =~= v@);
    r
}

impl VirtualDesktop {
    /// A desktop with the given id and name that is neither focused nor
    /// populated, with no windows, no workspaces and an empty status.
    pub fn new(id: u32, name: String) -> (r: Self)
        ensures
            r@ == (VirtualDesktopView {
                id,
                name: name@,
                focused: false,
                populated: false,
                window_count: 0,
                workspaces: Seq::empty(),
                status: Seq::empty(),
            }),
    {
        VirtualDesktop {
            id,
            name,
            focused: false,
            populated: false,
            window_count: 0,
            workspaces: Vec::new(),
            status: String::new(),
        }
    }

    /// A copy of this desktop.
    pub fn duplicate(&self) -> (r: Self)
        ensures
            r@ == self@,
    {
        VirtualDesktop {
            id: self.id,
            name: self.name.clone(),
            focused: self.focused,
            populated: self.populated,
            window_count: self.window_count,
            workspaces: copy_u32s(&self.workspaces),
            status: self.status.clone(),
        }
    }
}

/// The desktops of a list filed by id; where an id occurs more than once,
/// the last desktop with that id is kept.
pub open spec fn desktops_by_id(s: Seq<VirtualDesktopView>) -> Map<u32, VirtualDesktopView>
    decreases s.len(),
{
    if s.len() == 0 {
        Map::empty()
    } else {
        desktops_by_id(s.drop_last()).insert(s.last().id, s.last())
    }
}

/// The ids that occur in a list of desktops.
pub open spec fn ids_of(s: Seq<VirtualDesktopView>) -> Set<u32> {
    Set::new(|id: u32| exists|i: int| 0 <= i < s.len() && s[i].id == id)
}

/// Every desktop of the map is filed under its own id.
pub open spec fn filed_by_id(m: Map<u32, VirtualDesktopView>) -> bool {
    forall|k: u32| m.contains_key(k) ==> #[trigger] m[k].id == k
}

spec fn exec_by_id(s: Seq<VirtualDesktop>) -> Map<u32, VirtualDesktop>
    decreases s.len(),
{
    if s.len() == 0 {
        Map::empty()
    } else {
        exec_by_id(s.drop_last()).insert(s.last().id, s.last())
    }
}

spec fn views_of(s: Seq<VirtualDesktop>) -> Seq<VirtualDesktopView> {
    s.map_values(|d: VirtualDesktop| d@)
}

spec fn map_views(m: Map<u32, VirtualDesktop>) -> Map<u32, VirtualDesktopView> {
    m.map_values(|d: VirtualDesktop| d@)
}

proof fn lemma_exec_by_id(s: Seq<VirtualDesktop>)
    ensures
        map_views(exec_by_id(s)) == desktops_by_id(views_of(s)),
        exec_by_id(s).dom() == ids_of(views_of(s)),
        forall|k: u32| #[trigger] exec_by_id(s).contains_key(k) ==> exec_by_id(s)[k].id == k,
    decreases s.len(),
{
    if s.len() > 0 {
        lemma_exec_by_id(s.drop_last());
        assert(views_of(s.drop_last()) =~= views_of(s).drop_last());
        assert(map_views(exec_by_id(s)) =~= desktops_by_id(views_of(s)));
        let vs = views_of(s);
        let vp = views_of(s.drop_last());
        assert forall|id: u32| ids_of(vs).contains(id) implies exec_by_id(s).dom().contains(id) by {
            let i = choose|i: int| 0 <= i < vs.len() && vs[i].id == id;
            if i < s.len() - 1 {
                assert(vp[i].id == id);
                assert(ids_of(vp).contains(id));
            }
        }
        assert forall|id: u32| exec_by_id(s).dom().contains(id) implies ids_of(vs).contains(id) by {
            if id == s.last().id {
                assert(vs[s.len() - 1].id == id);
            } else {
                assert(ids_of(vp).contains(id));
                let i = choose|i: int| 0 <= i < vp.len() && vp[i].id == id;
                assert(vs[i].id == id);
            }
        }
        assert(exec_by_id(s).dom() =~= ids_of(vs));
    } else {
        assert(map_views(exec_by_id(s)) =~= desktops_by_id(views_of(s)));
        assert(exec_by_id(s).dom() =~= ids_of(views_of(s)));
    }
}

/// Desktop `i` is the last one in the list with its id.
pub open spec fn is_last_with_id(s: Seq<VirtualDesktopView>, i: int) -> bool {
    forall|j: int| i < j < s.len() ==> (#[trigger] s[j]).id != s[i].id
}

/// What a state report leaves the manager with: a desktop for exactly the
/// ids the report names, each filed under its own id, and for each id the
/// last desktop the report gives for it. Desktops of an earlier state that
/// the report does not name are gone; those it names again are replaced.
pub proof fn lemma_report_contents(s: Seq<VirtualDesktopView>)
    ensures
        desktops_by_id(s).dom() == ids_of(s),
        filed_by_id(desktops_by_id(s)),
        forall|i: int| 0 <= i < s.len() && is_last_with_id(s, i) ==> #[trigger] desktops_by_id(s)[s[i].id]
            == s[i],
    decreases s.len(),
{
    if s.len() > 0 {
        let t = s.drop_last();
        lemma_report_contents(t);
        assert forall|id: u32| ids_of(s).contains(id) <==> desktops_by_id(s).dom().contains(id) by {
            if ids_of(s).contains(id) && id != s.last().id {
                let i = choose|i: int| 0 <= i < s.len() && s[i].id == id;
                assert(t[i].id == id);
                assert(ids_of(t).contains(id));
            }
            if desktops_by_id(s).dom().contains(id) {
                if id == s.last().id {
                    assert(s[s.len() - 1].id == id);
                } else {
                    assert(ids_of(t).contains(id));
                    let i = choose|i: int| 0 <= i < t.len() && t[i].id == id;
                    assert(s[i].id == id);
                }
            }
        }
        assert(desktops_by_id(s).dom() =~= ids_of(s));
        assert forall|i: int| 0 <= i < s.len() && is_last_with_id(s, i) implies #[trigger] desktops_by_id(
            s,
        )[s[i].id] == s[i] by {
            if i < s.len() - 1 {
                assert(s[s.len() - 1].id != s[i].id);
                assert forall|j: int| i < j < t.len() implies (#[trigger] t[j]).id != t[i].id by {
                    assert(t[j] == s[j]);
                }
            }
        }
    }
}

/// Tracks the virtual desktops that Hyprland reports, by id.
pub struct VirtualDesktopsManager {
    virtual_desktops: HashMap<u32, VirtualDesktop>,
    ipc: Option<HyprlandIPC>,
}

impl View for VirtualDesktopsManager {
    type V = Map<u32, VirtualDesktopView>;

    closed spec fn view(&self) -> Map<u32, VirtualDesktopView> {
        map_views(self.virtual_desktops@)
    }
}

impl VirtualDesktopsManager {
    #[verifier::type_invariant]
    spec fn keys_are_ids(self) -> bool {
        forall|k: u32| #[trigger] self.virtual_desktops@.contains_key(k)
            ==> self.virtual_desktops@[k].id == k
    }

    /// The IPC client the manager holds, if any.
    pub closed spec fn spec_ipc(&self) -> Option<&HyprlandIPC> {
        match &self.ipc {
            Some(c) => Some(c),
            None => None,
        }
    }

    /// A manager that knows no desktops and holds no IPC client yet.
    pub fn new() -> (r: Self)
        ensures
            r@ == Map::<u32, VirtualDesktopView>::empty(),
            r.spec_ipc() is None,
            filed_by_id(r@),
    {
        let r = VirtualDesktopsManager { virtual_desktops: HashMap::new(), ipc: None };
        assert(r@ =~= Map::<u32, VirtualDesktopView>::empty());
        r
    }

    /// Takes in the desktops of a state report that was parsed into `parsed`.
    /// Where parsing failed, the parser's message comes back after
    /// "Failed to parse virtual desktop JSON: " and nothing changes.
    /// Otherwise every reported desktop is filed under its id (the last one
    /// wins where an id repeats) and every desktop that the report does not
    /// name is dropped: the manager then holds exactly the reported desktops.
    pub fn apply_parsed_state(&mut self, parsed: Result<Vec<VirtualDesktop>, String>) -> (r:
        Result<(), String>)
        ensures
            parsed matches Err(e) ==> r matches Err(m) && m@ == "Failed to parse virtual desktop JSON: "@
                + e@ && final(self)@ == old(self)@,
            parsed matches Ok(incoming) ==> r is Ok && final(self)@ == desktops_by_id(
                incoming@.map_values(|d: VirtualDesktop| d@),
            ),
            filed_by_id(final(self)@),
            final(self).spec_ipc() == old(self).spec_ipc(),
    {
        proof {
            use_type_invariant(&*self);
        }
        let incoming = match parsed {
            Ok(v) => v,
            Err(e) => {
                let mut m = String::from_str("Failed to parse virtual desktop JSON: ");
                m.append(e.as_str());
                return Err(m);
            },
        };
        let ghost s = incoming@;
        let mut map: HashMap<u32, VirtualDesktop> = HashMap::new();
        for vdesk in it: incoming
            invariant
                it.seq() == s,
                map@ == exec_by_id(s.take(it.index() as int)),
        {
            proof {
                assert(s.take(it.index() + 1).drop_last() =~= s.take(it.index() as int));
            }
            map.insert(vdesk.id, vdesk);
        }
        proof {
            assert(s.take(s.len() as int) =~= s);
            lemma_exec_by_id(s);
        }
        self.virtual_desktops = map;
        Ok(())
    }

    /// The ids of the known desktops, in increasing order.
    fn sorted_ids(&self) -> (r: Vec<u32>)
        ensures
            strictly_increasing(r@),
            r@.to_set() == self.virtual_desktops@.dom(),
    {
        broadcast use vstd::seq_lib::group_seq_properties;

        let mut r: Vec<u32> = Vec::new();
        for k in kit: self.virtual_desktops.keys()
            invariant
                kit.seq().unref().to_set() == self.virtual_desktops@.dom(),
                strictly_increasing(r@),
                r@.to_set() == kit.seq().unref().take(kit.index() as int).to_set(),
                kit.index() == kit.seq().len() ==> r@.to_set() == self.virtual_desktops@.dom(),
        {
            insert_sorted_unique(&mut r, *k);
            assert(kit.seq().unref().take(kit.index() + 1) =~= kit.seq().unref().take(
                kit.index() as int,
            ).push(*k));
            assert(kit.seq().unref().take(kit.seq().len() as int) =~= kit.seq().unref());
        }
        r
    }

    /// All known desktops, as copies, in increasing order of id; each appears once.
    pub fn get_virtual_desktops(&self) -> (r: Vec<VirtualDesktop>)
        ensures
            r@.len() == self@.dom().len(),
            forall|i: int, j: int| 0 <= i < j < r@.len() ==> r@[i].id < r@[j].id,
            forall|i: int| 0 <= i < r@.len() ==> self@.contains_key(#[trigger] r@[i].id) && r@[i]@
                == self@[r@[i].id],
            forall|id: u32| #[trigger] self@.contains_key(id) ==> exists|i: int|
                0 <= i < r@.len() && r@[i].id == id,
    {
        proof {
            use_type_invariant(self);
        }
        let ids = self.sorted_ids();
        let n = ids.len();
        let mut r: Vec<VirtualDesktop> = Vec::new();
        let mut i: usize = 0;
        while i < n
            invariant
                n == ids@.len(),
                i <= n,
                strictly_increasing(ids@),
                ids@.to_set() == self.virtual_desktops@.dom(),
                r@.len() == i,
                forall|j: int| 0 <= j < i ==> r@[j].id == ids@[j],
                forall|j: int| 0 <= j < i ==> #[trigger] r@[j]@ == self@[ids@[j]],
                forall|k: u32| #[trigger] self.virtual_desktops@.contains_key(k)
                    ==> self.virtual_desktops@[k].id == k,
            decreases n - i,
        {
            let id = ids[i];
            assert(ids@.to_set().contains(id));
            let d = self.virtual_desktops.get(&id);
            match d {
                Some(d) => {
                    r.push(d.duplicate());
                },
                None => {
                    proof {
                        assert(false);
                    }
                },
            }
            i = i + 1;
        }
        proof {
            assert(ids@.no_duplicates());
            ids@.unique_seq_to_set();
            assert forall|i: int, j: int| 0 <= i < j < r@.len() implies r@[i].id < r@[j].id by {
                assert(r@[i].id == ids@[i] && r@[j].id == ids@[j]);
            }
            assert(self@.dom() =~= self.virtual_desktops@.dom());
            assert forall|id: u32| #[trigger] self@.contains_key(id) implies exists|i: int|
                0 <= i < r@.len() && r@[i].id == id by {
                assert(ids@.to_set().contains(id));
                let k = choose|k: int| 0 <= k < ids@.len() && ids@[k] == id;
                assert(r@[k].id == id);
            }
            assert forall|j: int| 0 <= j < r@.len() implies self@.contains_key(#[trigger] r@[j].id) by {
                assert(ids@.to_set().contains(ids@[j]));
            }
        }
        r
    }

    /// A focused desktop, if any desktop is focused: of several, the one
    /// with the lowest id.
    pub fn get_focused_virtual_desktop(&self) -> (r: Option<&VirtualDesktop>)
        ensures
            r matches Some(d) ==> d.focused && self@.contains_key(d.id) && self@[d.id] == d@,
            r matches Some(d) ==> forall|id: u32| #[trigger] self@.contains_key(id) && self@[id].focused
                ==> d.id <= id,
            r is None ==> forall|id: u32| #[trigger] self@.contains_key(id) ==> !self@[id].focused,
    {
        proof {
            use_type_invariant(self);
        }
        let ids = self.sorted_ids();
        let n = ids.len();
        let mut i: usize = 0;
        while i < n
            invariant
                n == ids@.len(),
                i <= n,
                strictly_increasing(ids@),
                ids@.to_set() == self.virtual_desktops@.dom(),
                forall|j: int| 0 <= j < i ==> !#[trigger] self@[ids@[j]].focused,
                forall|k: u32| #[trigger] self.virtual_desktops@.contains_key(k)
                    ==> self.virtual_desktops@[k].id == k,
            decreases n - i,
        {
            let id = ids[i];
            assert(ids@.to_set().contains(id));
            match self.virtual_desktops.get(&id) {
                Some(d) => {
                    if d.focused {
                        proof {
                            assert forall|k: u32| #[trigger] self@.contains_key(k)
                                && self@[k].focused implies d.id <= k by {
                                assert(ids@.to_set().contains(k));
                                let q = choose|q: int| 0 <= q < ids@.len() && ids@[q] == k;
                                if q < i {
                                    assert(!self@[ids@[q]].focused);
                                }
                            }
                        }
                        return Some(d);
                    }
                },
                None => {},
            }
            i = i + 1;
        }
        proof {
            assert forall|id: u32| #[trigger] self@.contains_key(id) implies !self@[id].focused by {
                assert(ids@.to_set().contains(id));
                let k = choose|k: int| 0 <= k < ids@.len() && ids@[k] == id;
                assert(!self@[ids@[k]].focused);
            }
        }
        None
    }

    /// The IPC client the manager holds, if any.
    pub fn ipc(&self) -> (r: Option<&HyprlandIPC>)
        ensures
            r == self.spec_ipc(),
    {
        match &self.ipc {
            Some(c) => Some(c),
            None => None,
        }
    }

    /// Hands the manager an IPC client; the desktops stay as they are.
    pub fn set_ipc(&mut self, ipc: HyprlandIPC)
        ensures
            final(self).spec_ipc() == Some(&ipc),
            final(self)@ == old(self)@,
    {
        proof {
            use_type_invariant(&*self);
        }
        self.ipc = Some(ipc);
    }
}

} // verus!
