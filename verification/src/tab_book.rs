//! The algorithm tabs of the workspace: the root tab, the tabs opened beside
//! it and the tabs opened to repack a region of another tab. Each tab keeps
//! its code, its selected placements and the panel last shown; one tab is
//! active, and the selection shown is the active tab's.
//!
//! A selection is a set of placement indices. It is kept as a strictly
//! increasing `Vec<usize>`: that states the set exactly, each index once,
//! and gives the copy that a tab keeps and the drawing one fixed order,
//! where the order in which a hash set is walked changes from one process to
//! the next.
use vstd::prelude::*;
use crate::hit_grid::contains_index;
use crate::types::RightPanelTab;
use crate::workspace::{child_tab_name, child_tab_name_view, name_views, root_tab_name, root_tab_name_view};

verus! {

/// One algorithm tab, without its drawing.
pub struct TabRecord {
    pub id: u64,
    pub name: String,
    pub code: String,
    pub selected_indices: Vec<usize>,
    pub last_right_panel_tab: RightPanelTab,
}

/// A tab as plain values.
pub struct TabView {
    pub id: u64,
    pub name: Seq<char>,
    pub code: Seq<char>,
    pub selected: Seq<usize>,
    pub panel: RightPanelTab,
}

impl View for TabRecord {
    type V = TabView;

    open spec fn view(&self) -> TabView {
        TabView {
            id: self.id,
            name: self.name@,
            code: self.code@,
            selected: self.selected_indices@,
            panel: self.last_right_panel_tab,
        }
    }
}

pub open spec fn tab_views(s: Seq<TabRecord>) -> Seq<TabView> {
    s.map_values(|t: TabRecord| t@)
}

/// The tabs, the active one, the id the next tab gets, the selected
/// placements of the active tab, the right-hand panel shown, and whether a
/// new selection region may be drawn.
pub struct TabBook {
    pub tabs: Vec<TabRecord>,
    pub active_id: u64,
    pub next_id: u64,
    pub selected: Vec<usize>,
    pub active_panel: RightPanelTab,
    pub new_area_select: bool,
}

/// The index of the tab with id `id`, or -1.
pub open spec fn tab_index(s: Seq<TabView>, id: u64) -> int {
    if exists|i: int| 0 <= i < s.len() && (#[trigger] s[i]).id == id {
        choose|i: int| 0 <= i < s.len() && (#[trigger] s[i]).id == id
    } else {
        -1
    }
}

pub open spec fn ids_distinct(s: Seq<TabView>) -> bool {
    forall|i: int, j: int| 0 <= i < j < s.len() ==> (#[trigger] s[i]).id != (#[trigger] s[j]).id
}

pub open spec fn names_of(s: Seq<TabView>) -> Seq<Seq<char>> {
    s.map_values(|t: TabView| t.name)
}

impl TabBook {
    pub open spec fn views(&self) -> Seq<TabView> {
        tab_views(self.tabs@)
    }

    /// The tabs are well formed: the root tab (id 0) comes first, ids are
    /// distinct and below the next id, and every selection lists each
    /// placement once, in increasing order.
    pub open spec fn wf(&self) -> bool {
        let v = self.views();
        &&& v.len() >= 1
        &&& v[0].id == 0
        &&& ids_distinct(v)
        &&& forall|i: int| 0 <= i < v.len() ==> (#[trigger] v[i]).id < self.next_id
        &&& forall|i: int| 0 <= i < v.len() ==> strictly_increasing(#[trigger] v[i].selected)
        &&& strictly_increasing(self.selected@)
    }

    /// The tabs after the active one has been given the editor's code and
    /// the panel shown (nothing changes when no tab is active).
    pub open spec fn saved_views(&self, current_code: Seq<char>) -> Seq<TabView> {
        save_into(self.views(), self.active_id, self.active_panel, current_code)
    }
}

/// The tabs after the one with id `active_id` has been given `code` and
/// `panel` (nothing changes when no tab has that id).
pub open spec fn save_into(v: Seq<TabView>, active_id: u64, panel: RightPanelTab, code: Seq<char>) -> Seq<TabView> {
    let k = tab_index(v, active_id);
    if k >= 0 {
        v.update(k, TabView { code, panel, ..v[k] })
    } else {
        v
    }
}

pub open spec fn strictly_increasing(s: Seq<usize>) -> bool {
    forall|i: int, j: int| 0 <= i < j < s.len() ==> s[i] < s[j]
}

proof fn lemma_tab_index(s: Seq<TabView>, id: u64, k: int)
    requires
        ids_distinct(s),
        0 <= k < s.len(),
        s[k].id == id,
    ensures
        tab_index(s, id) == k,
{
    let c = choose|i: int| 0 <= i < s.len() && (#[trigger] s[i]).id == id;
    if c != k {
        if c < k {
            assert(s[c].id != s[k].id);
        } else {
            assert(s[k].id != s[c].id);
        }
    }
}

proof fn lemma_tab_index_none(s: Seq<TabView>, id: u64)
    requires
        forall|i: int| 0 <= i < s.len() ==> (#[trigger] s[i]).id != id,
    ensures
        tab_index(s, id) == -1,
{
}

fn copy_indices(v: &Vec<usize>) -> (r: Vec<usize>)
    ensures
        r@ == v@,
{
    let mut r: Vec<usize> = Vec::new();
    let mut i: usize = 0;
    while i < v.len()
        invariant
            i <= v.len(),
            r@ == v@.take(i as int),
        decreases v.len() - i,
    {
        r.push(v[i]);
        assert(r@ == v@.take(i + 1));
        i += 1;
    }
    assert(v@.take(i as int) == v@);
    r
}

/// The position of the tab with id `id`.
fn find_tab(tabs: &Vec<TabRecord>, id: u64) -> (r: Option<usize>)
    requires
        ids_distinct(tab_views(tabs@)),
    ensures
        match r {
            Some(k) => k < tabs@.len() && tab_index(tab_views(tabs@), id) == k,
            None => tab_index(tab_views(tabs@), id) == -1,
        },
{
    let ghost v = tab_views(tabs@);
    let mut i: usize = 0;
    while i < tabs.len()
        invariant
            i <= tabs.len(),
            v == tab_views(tabs@),
            ids_distinct(v),
            forall|j: int| 0 <= j < i ==> (#[trigger] v[j]).id != id,
        decreases tabs.len() - i,
    {
        if tabs[i].id == id {
            proof {
                lemma_tab_index(v, id, i as int);
            }
            return Some(i);
        }
        i += 1;
    }
    None
}

impl TabBook {
    /// The workspace as it opens: the root tab, named "Root", with the given
    /// code, shown on the visualisation.
    pub fn new(root_code: String) -> (b: TabBook)
        ensures
            b.wf(),
            b.views() == seq![TabView { id: 0, name: "Root"@, code: root_code@, selected: Seq::empty(), panel: RightPanelTab::Visualization }],
            b.active_id == 0,
            b.next_id == 1,
            b.selected@.len() == 0,
            b.active_panel == RightPanelTab::Visualization,
            b.new_area_select,
    {
        let mut tabs: Vec<TabRecord> = Vec::new();
        tabs.push(TabRecord {
            id: 0,
            name: "Root".to_owned(),
            code: root_code,
            selected_indices: Vec::new(),
            last_right_panel_tab: RightPanelTab::Visualization,
        });
        let b = TabBook {
            tabs,
            active_id: 0,
            next_id: 1,
            selected: Vec::new(),
            active_panel: RightPanelTab::Visualization,
            new_area_select: true,
        };
        assert(b.views() =~= seq![TabView { id: 0, name: "Root"@, code: b.tabs@[0].code@, selected: Seq::empty(), panel: RightPanelTab::Visualization }]);
        b
    }

    /// Makes `tab_id` the active tab. The tab that was active keeps the
    /// editor's code `current_code` and the panel shown. When a tab has that
    /// id, its selection and panel become the ones shown and its code is
    /// returned for the editor; otherwise the selection is cleared.
    pub fn select_tab(&mut self, tab_id: u64, current_code: String) -> (r: Option<String>)
        requires
            old(self).wf(),
        ensures
            final(self).wf(),
            final(self).views() == old(self).saved_views(current_code@),
            final(self).active_id == tab_id,
            final(self).next_id == old(self).next_id,
            final(self).new_area_select,
            ({
                let v = old(self).saved_views(current_code@);
                let k = tab_index(v, tab_id);
                if k >= 0 {
                    &&& r matches Some(code) && code@ == v[k].code
                    &&& final(self).selected@ == v[k].selected
                    &&& final(self).active_panel == v[k].panel
                } else {
                    &&& r is None
                    &&& final(self).selected@.len() == 0
                    &&& final(self).active_panel == old(self).active_panel
                }
            }),
    {
        let ghost v0 = self.views();
        let ghost saved = self.saved_views(current_code@);
        match find_tab(&self.tabs, self.active_id) {
            Some(k) => {
                let old_rec = &self.tabs[k];
                let rec = TabRecord {
                    id: old_rec.id,
                    name: old_rec.name.clone(),
                    code: current_code,
                    selected_indices: copy_indices(&old_rec.selected_indices),
                    last_right_panel_tab: self.active_panel,
                };
                self.tabs.set(k, rec);
                assert(self.views() =~= saved);
            },
            None => {
                assert(self.views() =~= saved);
            },
        }
        self.active_id = tab_id;
        self.new_area_select = true;
        assert forall|i: int, j: int| 0 <= i < j < saved.len() implies (#[trigger] saved[i]).id != (#[trigger] saved[j]).id by {
            assert(saved[i].id == v0[i].id && saved[j].id == v0[j].id);
        }
        assert forall|i: int| 0 <= i < saved.len() implies (#[trigger] saved[i]).id < self.next_id && strictly_increasing(saved[i].selected) by {
            assert(saved[i].id == v0[i].id && saved[i].selected == v0[i].selected);
        }
        match find_tab(&self.tabs, tab_id) {
            Some(k) => {
                self.selected = copy_indices(&self.tabs[k].selected_indices);
                self.active_panel = self.tabs[k].last_right_panel_tab;
                Some(self.tabs[k].code.clone())
            },
            None => {
                self.selected = Vec::new();
                None
            },
        }
    }

    /// Records the panel shown on the right, for the workspace and for the
    /// active tab.
    pub fn show_panel(&mut self, panel: RightPanelTab)
        requires
            old(self).wf(),
        ensures
            final(self).wf(),
            final(self).active_panel == panel,
            final(self).views() == ({
                let v = old(self).views();
                let k = tab_index(v, old(self).active_id);
                if k >= 0 {
                    v.update(k, TabView { panel, ..v[k] })
                } else {
                    v
                }
            }),
            final(self).active_id == old(self).active_id,
            final(self).next_id == old(self).next_id,
            final(self).selected@ == old(self).selected@,
            final(self).new_area_select == old(self).new_area_select,
    {
        let ghost v0 = self.views();
        self.active_panel = panel;
        match find_tab(&self.tabs, self.active_id) {
            Some(k) => {
                let old_rec = &self.tabs[k];
                let rec = TabRecord {
                    id: old_rec.id,
                    name: old_rec.name.clone(),
                    code: old_rec.code.clone(),
                    selected_indices: copy_indices(&old_rec.selected_indices),
                    last_right_panel_tab: panel,
                };
                self.tabs.set(k, rec);
                assert(self.views() =~= v0.update(k as int, TabView { panel, ..v0[k as int] }));
                assert forall|i: int, j: int| 0 <= i < j < self.views().len() implies (#[trigger] self.views()[i]).id
                    != (#[trigger] self.views()[j]).id by {
                    assert(self.views()[i].id == v0[i].id && self.views()[j].id == v0[j].id);
                }
                assert forall|i: int| 0 <= i < self.views().len() implies (#[trigger] self.views()[i]).id < self.next_id
                    && strictly_increasing(self.views()[i].selected) by {
                    assert(self.views()[i].id == v0[i].id && self.views()[i].selected == v0[i].selected);
                }
            },
            None => {},
        }
    }
}

/// Puts `x`, which is not in `v`, into the increasing list `v`.
fn insert_index(v: &mut Vec<usize>, x: usize)
    requires
        strictly_increasing(old(v)@),
        !old(v)@.contains(x),
    ensures
        strictly_increasing(final(v)@),
        forall|e: usize| #[trigger] final(v)@.contains(e) <==> (old(v)@.contains(e) || e == x),
{
    let mut p: usize = 0;
    while p < v.len() && v[p] < x
        invariant
            p <= v.len(),
            forall|i: int| 0 <= i < p ==> v@[i] < x,
        decreases v.len() - p,
    {
        p += 1;
    }
    let ghost old_v = v@;
    if p < v.len() {
        assert(v@[p as int] != x) by {
            if v@[p as int] == x {
                assert(old_v.contains(x));
            }
        }
    }
    v.insert(p, x);
    assert forall|e: usize| #[trigger] v@.contains(e) <==> (old_v.contains(e) || e == x) by {
        if v@.contains(e) {
            let k = choose|k: int| 0 <= k < v@.len() && v@[k] == e;
            if k < p {
                assert(old_v[k] == e);
            } else if k > p {
                assert(old_v[k - 1] == e);
            }
        }
        if old_v.contains(e) {
            let k = choose|k: int| 0 <= k < old_v.len() && old_v[k] == e;
            if k < p {
                assert(v@[k] == e);
            } else {
                assert(v@[k + 1] == e);
            }
        }
        if e == x {
            assert(v@[p as int] == x);
        }
    }
}

/// Takes `x`, which is in `v`, out of the increasing list `v`.
fn remove_index(v: &mut Vec<usize>, x: usize)
    requires
        strictly_increasing(old(v)@),
        old(v)@.contains(x),
    ensures
        strictly_increasing(final(v)@),
        forall|e: usize| #[trigger] final(v)@.contains(e) <==> (old(v)@.contains(e) && e != x),
{
    let ghost old_v = v@;
    let mut p: usize = 0;
    while p < v.len() && v[p] != x
        invariant
            p <= v.len(),
            v@ == old_v,
            forall|i: int| 0 <= i < p ==> v@[i] != x,
        decreases v.len() - p,
    {
        p += 1;
    }
    proof {
        if p == v.len() {
            let k = choose|k: int| 0 <= k < old_v.len() && old_v[k] == x;
            assert(v@[k] != x);
        }
    }
    v.remove(p);
    assert forall|e: usize| #[trigger] v@.contains(e) <==> (old_v.contains(e) && e != x) by {
        if v@.contains(e) {
            let k = choose|k: int| 0 <= k < v@.len() && v@[k] == e;
            if k < p {
                assert(old_v[k] == e);
            } else {
                assert(old_v[k + 1] == e);
                assert(old_v[p as int] == x);
            }
        }
        if old_v.contains(e) && e != x {
            let k = choose|k: int| 0 <= k < old_v.len() && old_v[k] == e;
            if k < p {
                assert(v@[k] == e);
            } else {
                assert(k != p);
                assert(v@[k - 1] == e);
            }
        }
    }
}

/// The tabs without the one with id `id`.
pub open spec fn without_id(s: Seq<TabView>, id: u64) -> Seq<TabView>
    decreases s.len(),
{
    if s.len() == 0 {
        Seq::empty()
    } else {
        let r = without_id(s.drop_last(), id);
        if s.last().id == id {
            r
        } else {
            r.push(s.last())
        }
    }
}

proof fn lemma_without_id(s: Seq<TabView>, id: u64)
    requires
        ids_distinct(s),
    ensures
        ids_distinct(without_id(s, id)),
        forall|i: int| 0 <= i < without_id(s, id).len() ==> exists|j: int| 0 <= j < s.len() && #[trigger] without_id(s, id)[i] == s[j],
        forall|i: int| 0 <= i < without_id(s, id).len() ==> (#[trigger] without_id(s, id)[i]).id != id,
        s.len() >= 1 && s[0].id != id ==> without_id(s, id).len() >= 1 && without_id(s, id)[0] == s[0],
    decreases s.len(),
{
    if s.len() > 0 {
        let p = s.drop_last();
        assert forall|i: int, j: int| 0 <= i < j < p.len() implies (#[trigger] p[i]).id != (#[trigger] p[j]).id by {
            assert(p[i] == s[i] && p[j] == s[j]);
        }
        lemma_without_id(p, id);
        let r = without_id(p, id);
        let out = without_id(s, id);
        assert forall|i: int| 0 <= i < out.len() implies exists|j: int| 0 <= j < s.len() && #[trigger] out[i] == s[j] by {
            if i < r.len() {
                let j = choose|j: int| 0 <= j < p.len() && r[i] == p[j];
                assert(out[i] == s[j]);
            } else {
                assert(out[i] == s[s.len() - 1]);
            }
        }
        assert forall|i: int, j: int| 0 <= i < j < out.len() implies (#[trigger] out[i]).id != (#[trigger] out[j]).id by {
            if j < r.len() {
                assert(out[i] == r[i] && out[j] == r[j]);
            } else {
                let a = choose|a: int| 0 <= a < p.len() && r[i] == p[a];
                assert(out[i] == s[a]);
                assert(out[j] == s[s.len() - 1]);
            }
        }
        if s.len() >= 2 && s[0].id != id {
            assert(p[0] == s[0]);
        }
        if s.len() == 1 && s[0].id != id {
            assert(r.len() == 0);
            assert(out == r.push(s[0]));
        }
    }
}

/// Whether a tab's id differs from `id`.
pub open spec fn id_differs(id: u64) -> spec_fn(TabView) -> bool {
    |t: TabView| t.id != id
}

/// Closing the tab with id `id` keeps every other tab, in its order: the
/// tabs left are the old tabs whose id differs from `id`. When a tab with
/// that id was open exactly one tab goes; otherwise none does.
pub proof fn lemma_close_keeps_other_tabs(s: Seq<TabView>, id: u64)
    requires
        ids_distinct(s),
    ensures
        without_id(s, id) == s.filter(id_differs(id)),
        forall|t: TabView| #[trigger] without_id(s, id).contains(t) <==> (s.contains(t) && t.id != id),
        (exists|k: int| 0 <= k < s.len() && s[k].id == id) ==> without_id(s, id).len() + 1 == s.len(),
        !(exists|k: int| 0 <= k < s.len() && s[k].id == id) ==> without_id(s, id) == s,
    decreases s.len(),
{
    reveal(Seq::filter);
    if s.len() > 0 {
        let p = s.drop_last();
        assert forall|i: int, j: int| 0 <= i < j < p.len() implies (#[trigger] p[i]).id != (#[trigger] p[j]).id by {
            assert(p[i] == s[i] && p[j] == s[j]);
        }
        lemma_close_keeps_other_tabs(p, id);
        let r = without_id(p, id);
        let out = without_id(s, id);
        assert(s =~= p.push(s.last()));
        if s.last().id == id {
            assert(out == r);
        } else {
            assert(out == r.push(s.last()));
        }
        assert forall|t: TabView| #[trigger] out.contains(t) <==> (s.contains(t) && t.id != id) by {
            if out.contains(t) {
                let i = choose|i: int| 0 <= i < out.len() && out[i] == t;
                if i < r.len() {
                    assert(out[i] == r[i]);
                    assert(r.contains(t));
                    let j = choose|j: int| 0 <= j < p.len() && p[j] == t;
                    assert(s[j] == t);
                } else {
                    assert(t == s.last());
                    assert(s[s.len() - 1] == t);
                }
            }
            if s.contains(t) && t.id != id {
                let j = choose|j: int| 0 <= j < s.len() && s[j] == t;
                if j < p.len() {
                    assert(p[j] == t);
                    assert(p.contains(t));
                    assert(r.contains(t));
                    let i = choose|i: int| 0 <= i < r.len() && r[i] == t;
                    if s.last().id != id {
                        assert(out[i] == r[i]);
                        assert(out[i] == t);
                    } else {
                        assert(out == r);
                    }
                } else {
                    assert(out[out.len() - 1] == t);
                }
            }
        }
        if exists|k: int| 0 <= k < s.len() && s[k].id == id {
            let k = choose|k: int| 0 <= k < s.len() && s[k].id == id;
            if k == s.len() - 1 {
                assert(!(exists|k2: int| 0 <= k2 < p.len() && p[k2].id == id)) by {
                    if exists|k2: int| 0 <= k2 < p.len() && p[k2].id == id {
                        let k2 = choose|k2: int| 0 <= k2 < p.len() && p[k2].id == id;
                        assert(s[k2].id == id);
                    }
                }
            } else {
                assert(p[k].id == id);
                assert(s.last().id != id) by {
                    assert(s[k].id != s[s.len() - 1].id);
                }
            }
        } else {
            assert(!(exists|k2: int| 0 <= k2 < p.len() && p[k2].id == id)) by {
                if exists|k2: int| 0 <= k2 < p.len() && p[k2].id == id {
                    let k2 = choose|k2: int| 0 <= k2 < p.len() && p[k2].id == id;
                    assert(s[k2].id == id);
                }
            }
            assert(s[s.len() - 1].id != id);
        }
    }
}

impl TabBook {
    /// Selects the placement `idx` when it is not selected and unselects it
    /// when it is; outside the root tab, the active tab keeps the new
    /// selection.
    pub fn toggle_selection(&mut self, idx: usize)
        requires
            old(self).wf(),
        ensures
            final(self).wf(),
            forall|x: usize| #[trigger] final(self).selected@.contains(x) <==> (old(self).selected@.contains(x) != (x == idx)),
            final(self).views() == ({
                let v = old(self).views();
                let k = tab_index(v, old(self).active_id);
                if old(self).active_id != 0 && k >= 0 {
                    v.update(k, TabView { selected: final(self).selected@, ..v[k] })
                } else {
                    v
                }
            }),
            final(self).active_id == old(self).active_id,
            final(self).next_id == old(self).next_id,
            final(self).active_panel == old(self).active_panel,
            final(self).new_area_select == old(self).new_area_select,
    {
        let ghost v0 = self.views();
        if !contains_index(&self.selected, idx) {
            insert_index(&mut self.selected, idx);
        } else {
            remove_index(&mut self.selected, idx);
        }
        if self.active_id != 0 {
            match find_tab(&self.tabs, self.active_id) {
                Some(k) => {
                    let old_rec = &self.tabs[k];
                    let rec = TabRecord {
                        id: old_rec.id,
                        name: old_rec.name.clone(),
                        code: old_rec.code.clone(),
                        selected_indices: copy_indices(&self.selected),
                        last_right_panel_tab: old_rec.last_right_panel_tab,
                    };
                    self.tabs.set(k, rec);
                    assert(self.views() =~= v0.update(k as int, TabView { selected: self.selected@, ..v0[k as int] }));
                    assert forall|i: int, j: int| 0 <= i < j < self.views().len() implies (#[trigger] self.views()[i]).id
                        != (#[trigger] self.views()[j]).id by {
                        assert(self.views()[i].id == v0[i].id && self.views()[j].id == v0[j].id);
                    }
                    assert forall|i: int| 0 <= i < self.views().len() implies (#[trigger] self.views()[i]).id < self.next_id
                        && strictly_increasing(self.views()[i].selected) by {
                        assert(self.views()[i].id == v0[i].id);
                        if i != k {
                            assert(self.views()[i].selected == v0[i].selected);
                        }
                    }
                },
                None => {},
            }
        }
    }

    /// Closes the tab with id `tab_id`, unless it is the root tab. When it
    /// was active, the root tab becomes active and its code is returned (see
    /// `select_tab`).
    pub fn remove_tab(&mut self, tab_id: u64, current_code: String) -> (r: Option<String>)
        requires
            old(self).wf(),
        ensures
            final(self).wf(),
            tab_id == 0 ==> *final(self) == *old(self) && r is None,
            tab_id != 0 ==> final(self).views() == without_id(old(self).views(), tab_id),
            tab_id != 0 && old(self).active_id == tab_id ==> {
                &&& final(self).active_id == 0
                &&& r matches Some(code) && code@ == old(self).views()[0].code
                &&& final(self).selected@ == old(self).views()[0].selected
                &&& final(self).active_panel == old(self).views()[0].panel
                &&& final(self).new_area_select
            },
            tab_id != 0 && old(self).active_id != tab_id ==> {
                &&& r is None
                &&& final(self).active_id == old(self).active_id
                &&& final(self).selected@ == old(self).selected@
                &&& final(self).active_panel == old(self).active_panel
                &&& final(self).new_area_select == old(self).new_area_select
            },
            final(self).next_id == old(self).next_id,
    {
        if tab_id == 0 {
            return None;
        }
        let ghost v0 = self.views();
        proof {
            lemma_without_id(v0, tab_id);
        }
        let mut kept: Vec<TabRecord> = Vec::new();
        let mut old_tabs: Vec<TabRecord> = Vec::new();
        std::mem::swap(&mut old_tabs, &mut self.tabs);
        let mut i: usize = 0;
        while i < old_tabs.len()
            invariant
                i <= old_tabs.len(),
                tab_views(old_tabs@) == v0,
                tab_views(kept@) == without_id(v0.take(i as int), tab_id),
            decreases old_tabs.len() - i,
        {
            assert(v0.take(i + 1).drop_last() == v0.take(i as int));
            let t = &old_tabs[i];
            if t.id != tab_id {
                let rec = TabRecord {
                    id: t.id,
                    name: t.name.clone(),
                    code: t.code.clone(),
                    selected_indices: copy_indices(&t.selected_indices),
                    last_right_panel_tab: t.last_right_panel_tab,
                };
                let ghost before = tab_views(kept@);
                kept.push(rec);
                assert(tab_views(kept@) =~= before.push(v0[i as int]));
            }
            i += 1;
        }
        assert(v0.take(i as int) == v0);
        self.tabs = kept;
        let ghost v1 = self.views();
        assert forall|a: int| 0 <= a < v1.len() implies (#[trigger] v1[a]).id < self.next_id && strictly_increasing(v1[a].selected) by {
            let j = choose|j: int| 0 <= j < v0.len() && v1[a] == v0[j];
        }
        if self.active_id == tab_id {
            proof {
                assert forall|a: int| 0 <= a < v1.len() implies (#[trigger] v1[a]).id != tab_id by {}
                lemma_tab_index_none(v1, tab_id);
                lemma_tab_index(v1, 0, 0);
                assert(self.saved_views(current_code@) == v1);
            }
            self.select_tab(0, current_code)
        } else {
            None
        }
    }
}

fn tab_names(tabs: &Vec<TabRecord>) -> (r: Vec<String>)
    ensures
        name_views(r@) == names_of(tab_views(tabs@)),
{
    let mut r: Vec<String> = Vec::new();
    let mut i: usize = 0;
    while i < tabs.len()
        invariant
            i <= tabs.len(),
            name_views(r@) == names_of(tab_views(tabs@)).take(i as int),
        decreases tabs.len() - i,
    {
        let ghost before = name_views(r@);
        r.push(tabs[i].name.clone());
        assert(name_views(r@) =~= before.push(tabs@[i as int].name@));
        assert(names_of(tab_views(tabs@)).take(i + 1) =~= names_of(tab_views(tabs@)).take(i as int).push(tabs@[i as int].name@));
        i += 1;
    }
    assert(names_of(tab_views(tabs@)).take(i as int) =~= names_of(tab_views(tabs@)));
    r
}

impl TabBook {
    /// Adds `rec`, whose id is the next id, and makes it active (see
    /// `select_tab`).
    fn open_tab(&mut self, rec: TabRecord, current_code: String)
        requires
            old(self).wf(),
            rec.id == old(self).next_id,
            old(self).next_id < u64::MAX,
            rec.selected_indices@.len() == 0,
        ensures
            final(self).wf(),
            final(self).views() == save_into(
                old(self).views().push(rec@),
                old(self).active_id,
                old(self).active_panel,
                current_code@,
            ),
            final(self).active_id == rec.id,
            final(self).next_id == old(self).next_id + 1,
            final(self).selected@.len() == 0,
            final(self).active_panel == final(self).views().last().panel,
            final(self).new_area_select,
    {
        let ghost v0 = self.views();
        let ghost r = rec@;
        let id = rec.id;
        self.tabs.push(rec);
        self.next_id = self.next_id + 1;
        let ghost v1 = self.views();
        assert(v1 =~= v0.push(r));
        assert forall|i: int, j: int| 0 <= i < j < v1.len() implies (#[trigger] v1[i]).id != (#[trigger] v1[j]).id by {
            if j == v0.len() {
                assert(v1[i] == v0[i]);
            } else {
                assert(v1[i] == v0[i] && v1[j] == v0[j]);
            }
        }
        assert forall|i: int| 0 <= i < v1.len() implies (#[trigger] v1[i]).id < self.next_id && strictly_increasing(v1[i].selected) by {
            if i < v0.len() {
                assert(v1[i] == v0[i]);
            }
        }
        let ghost saved = self.saved_views(current_code@);
        proof {
            assert(saved[v0.len() as int].id == id);
            lemma_tab_index(saved, id, v0.len() as int);
        }
        let _loaded = self.select_tab(id, current_code);
    }
}

impl TabBook {
    /// Opens a new root tab beside the others: it is named "Root <n>" (see
    /// `root_tab_name`), holds the editor's code, gets the next id and
    /// becomes active. Returns its id.
    pub fn new_root_tab(&mut self, current_code: String) -> (id: u64)
        requires
            old(self).wf(),
            old(self).next_id < u64::MAX,
            old(self).tabs@.len() < usize::MAX,
        ensures
            id == old(self).next_id,
            final(self).wf(),
            final(self).views() == save_into(
                old(self).views().push(
                    TabView {
                        id,
                        name: root_tab_name_view(names_of(old(self).views())),
                        code: current_code@,
                        selected: Seq::empty(),
                        panel: RightPanelTab::Visualization,
                    },
                ),
                old(self).active_id,
                old(self).active_panel,
                current_code@,
            ),
            final(self).active_id == id,
            final(self).next_id == old(self).next_id + 1,
            final(self).selected@.len() == 0,
            final(self).active_panel == final(self).views().last().panel,
            final(self).new_area_select,
    {
        let names = tab_names(&self.tabs);
        let name = root_tab_name(&names);
        let id = self.next_id;
        let rec = TabRecord {
            id,
            name,
            code: current_code.clone(),
            selected_indices: Vec::new(),
            last_right_panel_tab: RightPanelTab::Visualization,
        };
        self.open_tab(rec, current_code);
        id
    }

    /// Opens the tab that repacks a region of the active tab: it is named
    /// after the active tab (see `child_tab_name`), both it and the active
    /// tab are given `node_code`, and it gets the next id and becomes active
    /// (the active tab then keeps the editor's code, see `select_tab`).
    /// Returns its id, or `None` when no tab is active.
    pub fn new_child_tab(&mut self, node_code: String, current_code: String) -> (r: Option<u64>)
        requires
            old(self).wf(),
            old(self).next_id < u64::MAX,
            old(self).tabs@.len() < usize::MAX,
        ensures
            final(self).wf(),
            ({
                let v = old(self).views();
                let k = tab_index(v, old(self).active_id);
                if k >= 0 {
                    &&& r == Some(old(self).next_id)
                    &&& final(self).views() == save_into(
                        v.update(k, TabView { code: node_code@, ..v[k] }).push(
                            TabView {
                                id: old(self).next_id,
                                name: child_tab_name_view(v[k].name, names_of(v)),
                                code: node_code@,
                                selected: Seq::empty(),
                                panel: RightPanelTab::Visualization,
                            },
                        ),
                        old(self).active_id,
                        old(self).active_panel,
                        current_code@,
                    )
                    &&& final(self).active_id == old(self).next_id
                    &&& final(self).next_id == old(self).next_id + 1
                    &&& final(self).selected@.len() == 0
                    &&& final(self).active_panel == RightPanelTab::Visualization
                    &&& final(self).new_area_select
                } else {
                    &&& r is None
                    &&& *final(self) == *old(self)
                }
            }),
    {
        let ghost v0 = self.views();
        let k = match find_tab(&self.tabs, self.active_id) {
            Some(k) => k,
            None => {
                return None;
            },
        };
        let names = tab_names(&self.tabs);
        let name = child_tab_name(self.tabs[k].name.as_str(), &names);
        let old_rec = &self.tabs[k];
        let parent = TabRecord {
            id: old_rec.id,
            name: old_rec.name.clone(),
            code: node_code.clone(),
            selected_indices: copy_indices(&old_rec.selected_indices),
            last_right_panel_tab: old_rec.last_right_panel_tab,
        };
        self.tabs.set(k, parent);
        let ghost v1 = self.views();
        assert(v1 =~= v0.update(k as int, TabView { code: node_code@, ..v0[k as int] }));
        assert forall|i: int, j: int| 0 <= i < j < v1.len() implies (#[trigger] v1[i]).id != (#[trigger] v1[j]).id by {
            assert(v1[i].id == v0[i].id && v1[j].id == v0[j].id);
        }
        assert forall|i: int| 0 <= i < v1.len() implies (#[trigger] v1[i]).id < self.next_id && strictly_increasing(v1[i].selected) by {
            assert(v1[i].id == v0[i].id && v1[i].selected == v0[i].selected);
        }
        let id = self.next_id;
        let rec = TabRecord {
            id,
            name,
            code: node_code,
            selected_indices: Vec::new(),
            last_right_panel_tab: RightPanelTab::Visualization,
        };
        self.open_tab(rec, current_code);
        proof {
            let pushed = v1.push(rec@);
            lemma_tab_index(v0, old(self).active_id, k as int);
            lemma_tab_index(pushed, old(self).active_id, k as int);
            assert(old(self).active_id != id);
        }
        Some(id)
    }
}

/// Two increasing lists with the same elements are the same list.
proof fn lemma_increasing_same_elements(a: Seq<usize>, b: Seq<usize>)
    requires
        strictly_increasing(a),
        strictly_increasing(b),
        forall|x: usize| #[trigger] a.contains(x) <==> b.contains(x),
    ensures
        a == b,
    decreases a.len(),
{
    if a.len() == 0 {
        if b.len() > 0 {
            assert(b.contains(b[0]));
            assert(a.contains(b[0]));
        }
        assert(a =~= b);
    } else {
        assert(a.contains(a[0]));
        assert(b.contains(a[0]));
        assert(b.len() > 0);
        assert(b.contains(b[0]));
        assert(a.contains(b[0]));
        let i = choose|i: int| 0 <= i < a.len() && a[i] == b[0];
        let j = choose|j: int| 0 <= j < b.len() && b[j] == a[0];
        assert(a[0] == b[0]) by {
            if i > 0 {
                assert(a[0] < a[i]);
            }
            if j > 0 {
                assert(b[0] < b[j]);
            }
        }
        let a1 = a.drop_first();
        let b1 = b.drop_first();
        assert forall|x: usize| #[trigger] a1.contains(x) <==> b1.contains(x) by {
            if a1.contains(x) {
                let k = choose|k: int| 0 <= k < a1.len() && a1[k] == x;
                assert(a[k + 1] == x && a[0] < a[k + 1]);
                assert(a.contains(x));
                assert(b.contains(x));
                let m = choose|m: int| 0 <= m < b.len() && b[m] == x;
                assert(m != 0);
                assert(b1[m - 1] == x);
            }
            if b1.contains(x) {
                let k = choose|k: int| 0 <= k < b1.len() && b1[k] == x;
                assert(b[k + 1] == x && b[0] < b[k + 1]);
                assert(b.contains(x));
                assert(a.contains(x));
                let m = choose|m: int| 0 <= m < a.len() && a[m] == x;
                assert(m != 0);
                assert(a1[m - 1] == x);
            }
        }
        lemma_increasing_same_elements(a1, b1);
        assert(a =~= seq![a[0]] + a1);
        assert(b =~= seq![b[0]] + b1);
    }
}

/// Selecting and then unselecting a placement (or the other way round)
/// leaves the selection as it was: two toggles of the same placement, as
/// `toggle_selection` makes them, undo each other.
pub proof fn lemma_toggle_twice(s0: Seq<usize>, s1: Seq<usize>, s2: Seq<usize>, idx: usize)
    requires
        strictly_increasing(s0),
        strictly_increasing(s2),
        forall|x: usize| #[trigger] s1.contains(x) <==> (s0.contains(x) != (x == idx)),
        forall|x: usize| #[trigger] s2.contains(x) <==> (s1.contains(x) != (x == idx)),
    ensures
        s2 == s0,
{
    assert forall|x: usize| #[trigger] s2.contains(x) <==> s0.contains(x) by {
        assert(s1.contains(x) <==> (s0.contains(x) != (x == idx)));
    }
    lemma_increasing_same_elements(s2, s0);
}

impl TabBook {
    /// Clears the selection shown; the tabs keep theirs.
    pub fn clear_selection(&mut self)
        requires
            old(self).wf(),
        ensures
            final(self).wf(),
            final(self).selected@.len() == 0,
            final(self).views() == old(self).views(),
            final(self).active_id == old(self).active_id,
            final(self).next_id == old(self).next_id,
            final(self).active_panel == old(self).active_panel,
            final(self).new_area_select == old(self).new_area_select,
    {
        self.selected = Vec::new();
    }

    /// The selected placements among the first `count`, in increasing order:
    /// the placements of a selection that an output of `count` placements
    /// still has.
    pub fn selected_below(&self, count: usize) -> (r: Vec<usize>)
        requires
            self.wf(),
        ensures
            strictly_increasing(r@),
            forall|x: usize| #[trigger] r@.contains(x) <==> (self.selected@.contains(x) && x < count),
    {
        let mut r: Vec<usize> = Vec::new();
        let mut i: usize = 0;
        while i < self.selected.len()
            invariant
                i <= self.selected.len(),
                strictly_increasing(self.selected@),
                strictly_increasing(r@),
                forall|k: int| 0 <= k < r@.len() ==> exists|j: int| 0 <= j < i && self.selected@[j] == #[trigger] r@[k],
                forall|x: usize| #[trigger] r@.contains(x) <==> (exists|j: int| 0 <= j < i && self.selected@[j] == x) && x < count,
            decreases self.selected.len() - i,
        {
            let x = self.selected[i];
            if x < count {
                proof {
                    assert forall|k: int| 0 <= k < r@.len() implies r@[k] < x by {
                        let j = choose|j: int| 0 <= j < i && self.selected@[j] == r@[k];
                    }
                }
                let ghost old_r = r@;
                r.push(x);
                proof {
                    assert forall|y: usize| #[trigger] r@.contains(y) <==> (exists|j: int| 0 <= j < i + 1 && self.selected@[j] == y) && y < count by {
                        if r@.contains(y) {
                            let k = choose|k: int| 0 <= k < r@.len() && r@[k] == y;
                            if k < old_r.len() {
                                assert(old_r.contains(y));
                            }
                        }
                        if (exists|j: int| 0 <= j < i + 1 && self.selected@[j] == y) && y < count {
                            let j = choose|j: int| 0 <= j < i + 1 && self.selected@[j] == y;
                            if j < i {
                                assert(old_r.contains(y));
                                let k = choose|k: int| 0 <= k < old_r.len() && old_r[k] == y;
                                assert(r@[k] == y);
                            } else {
                                assert(r@[r@.len() - 1] == y);
                            }
                        }
                    }
                    assert forall|k: int| 0 <= k < r@.len() implies exists|j: int| 0 <= j < i + 1 && self.selected@[j] == #[trigger] r@[k] by {
                        if k < old_r.len() {
                            assert(old_r[k] == r@[k]);
                        } else {
                            assert(self.selected@[i as int] == r@[k]);
                        }
                    }
                }
            } else {
                proof {
                    assert forall|y: usize| #[trigger] r@.contains(y) <==> (exists|j: int| 0 <= j < i + 1 && self.selected@[j] == y) && y < count by {
                        if (exists|j: int| 0 <= j < i + 1 && self.selected@[j] == y) && y < count {
                            let j = choose|j: int| 0 <= j < i + 1 && self.selected@[j] == y;
                            assert(j < i);
                        }
                    }
                }
            }
            i += 1;
        }
        proof {
            assert forall|x: usize| #[trigger] r@.contains(x) <==> (self.selected@.contains(x) && x < count) by {
                if self.selected@.contains(x) {
                    let j = choose|j: int| 0 <= j < self.selected@.len() && self.selected@[j] == x;
                    assert(exists|j: int| 0 <= j < i && self.selected@[j] == x);
                }
            }
        }
        r
    }
}

proof fn lemma_save_into_keeps_ids(v: Seq<TabView>, id: u64, panel: RightPanelTab, code: Seq<char>)
    ensures
        save_into(v, id, panel, code).len() == v.len(),
        forall|i: int| 0 <= i < v.len() ==> (#[trigger] save_into(v, id, panel, code)[i]).id == v[i].id,
{
}

/// Leaving a tab and coming back to it gives back the code the editor held
/// when it was left, and the panel that was shown: the tab `a` is left for
/// `b` with the editor holding `code_a`, then `b` is left for `a` with the
/// editor holding `code_b` (see `select_tab`).
pub proof fn lemma_leave_and_return(
    v: Seq<TabView>,
    a: u64,
    b: u64,
    panel_a: RightPanelTab,
    panel_b: RightPanelTab,
    code_a: Seq<char>,
    code_b: Seq<char>,
)
    requires
        ids_distinct(v),
        tab_index(v, a) >= 0,
        a != b,
    ensures
        ({
            let left_a = save_into(v, a, panel_a, code_a);
            let left_b = save_into(left_a, b, panel_b, code_b);
            let k = tab_index(left_b, a);
            &&& k >= 0
            &&& left_b[k].code == code_a
            &&& left_b[k].panel == panel_a
        }),
{
    let ka = tab_index(v, a);
    let c = choose|i: int| 0 <= i < v.len() && (#[trigger] v[i]).id == a;
    lemma_tab_index(v, a, c);
    let left_a = save_into(v, a, panel_a, code_a);
    lemma_save_into_keeps_ids(v, a, panel_a, code_a);
    assert(ids_distinct(left_a)) by {
        assert forall|i: int, j: int| 0 <= i < j < left_a.len() implies (#[trigger] left_a[i]).id != (#[trigger] left_a[j]).id by {
            assert(left_a[i].id == v[i].id && left_a[j].id == v[j].id);
        }
    }
    lemma_tab_index(left_a, a, ka);
    let left_b = save_into(left_a, b, panel_b, code_b);
    lemma_save_into_keeps_ids(left_a, b, panel_b, code_b);
    assert(ids_distinct(left_b)) by {
        assert forall|i: int, j: int| 0 <= i < j < left_b.len() implies (#[trigger] left_b[i]).id != (#[trigger] left_b[j]).id by {
            assert(left_b[i].id == left_a[i].id && left_b[j].id == left_a[j].id);
        }
    }
    lemma_tab_index(left_b, a, ka);
    let kb = tab_index(left_a, b);
    if kb >= 0 {
        let d = choose|i: int| 0 <= i < left_a.len() && (#[trigger] left_a[i]).id == b;
        lemma_tab_index(left_a, b, d);
        assert(kb != ka);
        assert(left_b[ka] == left_a[ka]);
    }
}

} // verus!
