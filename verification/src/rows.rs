//! The search list as rows: section headings, the add action and project rows, each
//! with the selection slot the keyboard acts on for it.
use vstd::prelude::*;
use crate::app::{activated, entered_add_mode, matching, matching_unpinned, opened, str_views, App, KeyEffect, Mode, Slot};
use crate::text::views;

verus! {

/// A heading of the search list.
#[derive(Debug, Clone, Copy, PartialEq, Eq, Structural)]
pub enum Section {
    Actions,
    Pinned,
    Recent,
}

/// A row of the search list, with whether it is highlighted as selected.
#[derive(Debug)]
pub enum ListRow {
    Header(Section),
    AddProject { selected: bool },
    /// A project; `slot` is the selection index that designates it.
    Project { path: String, slot: usize, selected: bool },
}

/// A search-list row as a plain value.
pub enum RowView {
    Header(Section),
    AddProject(bool),
    Project(Seq<char>, int, bool),
}

impl View for ListRow {
    type V = RowView;

    open spec fn view(&self) -> RowView {
        match self {
            ListRow::Header(s) => RowView::Header(*s),
            ListRow::AddProject { selected } => RowView::AddProject(*selected),
            ListRow::Project { path, slot, selected } => RowView::Project(path@, *slot as int, *selected),
        }
    }
}

/// The plain values of a list of rows.
pub open spec fn row_views(rows: Seq<ListRow>) -> Seq<RowView> {
    Seq::new(rows.len(), |i: int| rows[i]@)
}

/// Whether selection `sel` designates slot `slot`.
pub open spec fn is_selected(sel: Option<usize>, slot: int) -> bool {
    sel matches Some(i) && i == slot
}

/// Project rows for `paths`, designated by slots counted from `first`.
pub open spec fn project_rows(paths: Seq<Seq<char>>, first: int, sel: Option<usize>) -> Seq<RowView> {
    Seq::new(paths.len(), |i: int| RowView::Project(paths[i], first + i, is_selected(sel, first + i)))
}

impl App {
    /// The search list: under "Actions" the add action (when listed), under "Pinned
    /// Projects" the listed pinned projects, under "Recent Projects" the listed recent
    /// projects; a heading only above a non-empty section.
    pub open spec fn search_rows_spec(&self) -> Seq<RowView> {
        let add: int = if self.shows_add_action() { 1 } else { 0 };
        let pinned = self.shown_pinned();
        let recents = self.shown_recents();
        let sel = self.selected_idx;
        let add_rows = if self.shows_add_action() {
            seq![RowView::Header(Section::Actions), RowView::AddProject(is_selected(sel, 0))]
        } else {
            Seq::empty()
        };
        let pinned_rows = if pinned.len() > 0 {
            seq![RowView::Header(Section::Pinned)] + project_rows(pinned, add, sel)
        } else {
            Seq::empty()
        };
        let recent_rows = if recents.len() > 0 {
            seq![RowView::Header(Section::Recent)] + project_rows(recents, add + pinned.len(), sel)
        } else {
            Seq::empty()
        };
        add_rows + pinned_rows + recent_rows
    }
}

fn push_project_rows(rows: &mut Vec<ListRow>, paths: &Vec<&str>, first: usize, sel: Option<usize>)
    requires
        first + paths@.len() <= usize::MAX,
    ensures
        row_views(final(rows)@) == row_views(old(rows)@) + project_rows(str_views(paths@), first as int, sel),
{
    let mut i: usize = 0;
    while i < paths.len()
        invariant
            i <= paths@.len(),
            first + paths@.len() <= usize::MAX,
            row_views(rows@) == row_views(old(rows)@) + project_rows(str_views(paths@), first as int, sel).take(i as int),
        decreases paths@.len() - i,
    {
        let slot = first + i;
        let selected = match sel {
            Some(s) => s == slot,
            None => false,
        };
        let ghost before = rows@;
        rows.push(ListRow::Project { path: paths[i].to_owned(), slot, selected });
        assert(row_views(rows@) =~= row_views(before).push(rows@[before.len() as int]@));
        assert(project_rows(str_views(paths@), first as int, sel).take(i + 1) =~= project_rows(
            str_views(paths@),
            first as int,
            sel,
        ).take(i as int).push(project_rows(str_views(paths@), first as int, sel)[i as int]));
        i += 1;
    }
    assert(project_rows(str_views(paths@), first as int, sel).take(paths@.len() as int) =~= project_rows(
        str_views(paths@),
        first as int,
        sel,
    ));
}

impl App {
    /// The rows of the search list, each with its selection slot and highlight.
    pub fn search_rows(&self) -> (rows: Vec<ListRow>)
        requires
            self.within_limits(),
        ensures
            row_views(rows@) == self.search_rows_spec(),
    {
        proof {
            views(self.pinned@).lemma_filter_len(matching(self.query@));
            views(self.recents@).lemma_filter_len(matching_unpinned(self.query@, views(self.pinned@)));
        }
        let sel = self.selected_idx;
        let show_add = self.show_add_action();
        let offset_add: usize = if show_add { 1 } else { 0 };
        let pinned = self.filtered_pinned();
        let recents = self.filtered_recents_unpinned();
        assert(str_views(pinned@).len() == pinned@.len());
        assert(str_views(recents@).len() == recents@.len());
        let offset_recent = offset_add + pinned.len();
        let mut rows: Vec<ListRow> = Vec::new();
        let ghost add_rows = row_views(rows@);
        if show_add {
            rows.push(ListRow::Header(Section::Actions));
            let selected = match sel {
                Some(s) => s == 0,
                None => false,
            };
            rows.push(ListRow::AddProject { selected });
            proof {
                add_rows = row_views(rows@);
                assert(add_rows =~= seq![RowView::Header(Section::Actions), RowView::AddProject(is_selected(sel, 0))]);
            }
        } else {
            assert(add_rows =~= Seq::<RowView>::empty());
        }
        let ghost after_add = row_views(rows@);
        if pinned.len() > 0 {
            let ghost before = rows@;
            rows.push(ListRow::Header(Section::Pinned));
            assert(row_views(rows@) =~= row_views(before).push(RowView::Header(Section::Pinned)));
            push_project_rows(&mut rows, &pinned, offset_add, sel);
            assert(row_views(rows@) =~= after_add + (seq![RowView::Header(Section::Pinned)] + project_rows(
                self.shown_pinned(),
                offset_add as int,
                sel,
            )));
        } else {
            assert(row_views(rows@) =~= after_add + Seq::<RowView>::empty());
        }
        let ghost after_pinned = row_views(rows@);
        if recents.len() > 0 {
            let ghost before = rows@;
            rows.push(ListRow::Header(Section::Recent));
            assert(row_views(rows@) =~= row_views(before).push(RowView::Header(Section::Recent)));
            push_project_rows(&mut rows, &recents, offset_recent, sel);
            assert(row_views(rows@) =~= after_pinned + (seq![RowView::Header(Section::Recent)] + project_rows(
                self.shown_recents(),
                offset_recent as int,
                sel,
            )));
        } else {
            assert(row_views(rows@) =~= after_pinned + Seq::<RowView>::empty());
        }
        rows
    }
}

/// The selection slot a row stands for (a heading stands for none).
pub open spec fn row_slot(row: RowView) -> int {
    match row {
        RowView::Header(_) => -1,
        RowView::AddProject(_) => 0,
        RowView::Project(_, slot, _) => slot,
    }
}

/// Some row stands for `slot`.
pub open spec fn has_row_for(rows: Seq<RowView>, slot: int) -> bool {
    exists|k: int| 0 <= k < rows.len() && #[trigger] row_slot(rows[k]) == slot
}

/// Each search-list row designates the slot the keyboard acts on for it: the add
/// row slot 0, where Enter enters add mode; a project row the slot where Enter opens
/// that same project; and a row is highlighted exactly when its slot is selected.
/// Every selectable slot has a row.
pub proof fn law_rows_follow_slots(app: App)
    ensures
        forall|k: int| #![trigger app.search_rows_spec()[k]]
            0 <= k < app.search_rows_spec().len() ==> match app.search_rows_spec()[k] {
                RowView::Header(_) => true,
                RowView::AddProject(sel) => app.search_slot(0) is AddAction && sel == is_selected(
                    app.selected_idx,
                    0,
                ),
                RowView::Project(p, slot, sel) => (app.search_slot(slot) == Slot::Pinned(p)
                    || app.search_slot(slot) == Slot::Recent(p)) && sel == is_selected(app.selected_idx, slot),
            },
        forall|slot: int| 0 <= slot < app.search_count() ==> #[trigger] has_row_for(app.search_rows_spec(), slot),
{
    let add: int = if app.shows_add_action() { 1 } else { 0 };
    let pinned = app.shown_pinned();
    let recents = app.shown_recents();
    let sel = app.selected_idx;
    let rows = app.search_rows_spec();
    let a = if app.shows_add_action() { 2int } else { 0int };
    let b: int = if pinned.len() > 0 { 1 + pinned.len() as int } else { 0 };
    let c: int = if recents.len() > 0 { 1 + recents.len() as int } else { 0 };
    assert(rows.len() == a + b + c);
    assert forall|k: int| #![trigger rows[k]] 0 <= k < rows.len() implies match rows[k] {
        RowView::Header(_) => true,
        RowView::AddProject(s) => app.search_slot(0) is AddAction && s == is_selected(sel, 0),
        RowView::Project(p, slot, s) => (app.search_slot(slot) == Slot::Pinned(p) || app.search_slot(slot)
            == Slot::Recent(p)) && s == is_selected(sel, slot),
    } by {
        if k < a {
        } else if k < a + b {
            if k > a {
                assert(rows[k] == project_rows(pinned, add, sel)[k - a - 1]);
            }
        } else {
            if k > a + b {
                assert(rows[k] == project_rows(recents, add + pinned.len(), sel)[k - a - b - 1]);
            }
        }
    }
    assert forall|slot: int| 0 <= slot < app.search_count() implies #[trigger] has_row_for(rows, slot) by {
        if app.shows_add_action() && slot == 0 {
            assert(row_slot(rows[1]) == 0);
        } else if slot < add + pinned.len() {
            let k = a + 1 + (slot - add);
            assert(rows[k] == project_rows(pinned, add, sel)[slot - add]);
            assert(row_slot(rows[k]) == slot);
        } else {
            let k = a + b + 1 + (slot - add - pinned.len());
            assert(rows[k] == project_rows(recents, add + pinned.len(), sel)[slot - add - pinned.len()]);
            assert(row_slot(rows[k]) == slot);
        }
    }
}

/// Enter acts on the highlighted row of the search list: on the highlighted add row
/// it enters add mode, on a highlighted project row it opens that project.
pub proof fn law_enter_acts_on_highlighted_row(
    pre: App,
    post: App,
    eff: KeyEffect,
    suggestions: Seq<Seq<char>>,
    home: Seq<char>,
    k: int,
)
    requires
        pre.mode == Mode::Search,
        0 <= k < pre.search_rows_spec().len(),
        activated(pre, post, eff, suggestions, home),
    ensures
        pre.search_rows_spec()[k] matches RowView::AddProject(sel) ==> (sel ==> entered_add_mode(pre, post)),
        pre.search_rows_spec()[k] matches RowView::Project(p, slot, sel) ==> (sel ==> opened(
            pre,
            post,
            p,
            eff is RecentsChanged,
        )),
{
    law_rows_follow_slots(pre);
    let row = pre.search_rows_spec()[k];
    match row {
        RowView::Project(p, slot, sel) => {
            if sel {
                assert(pre.selected_idx == Some(slot as usize));
                assert(pre.target_row(pre.selectable(suggestions.len())) == Some(slot));
            }
        },
        RowView::AddProject(sel) => {
            if sel {
                assert(pre.target_row(pre.selectable(suggestions.len())) == Some(0int));
            }
        },
        _ => {},
    }
}

/// In search mode the number of rows the keyboard moves among is the number of listed
/// rows that carry a slot: every listed add or project row has a slot below it, and
/// every slot below it has a row.
pub proof fn law_row_count_matches_selectable(app: App, suggestion_count: nat)
    requires
        app.mode == Mode::Search,
    ensures
        forall|k: int| #![trigger app.search_rows_spec()[k]]
            0 <= k < app.search_rows_spec().len() && !(app.search_rows_spec()[k] is Header) ==> 0 <= row_slot(
                app.search_rows_spec()[k],
            ) < app.selectable(suggestion_count),
        forall|slot: int| 0 <= slot < app.selectable(suggestion_count) ==> #[trigger] has_row_for(app.search_rows_spec(), slot),
{
    law_rows_follow_slots(app);
    let add: int = if app.shows_add_action() { 1 } else { 0 };
    let pinned = app.shown_pinned();
    let recents = app.shown_recents();
    let sel = app.selected_idx;
    let rows = app.search_rows_spec();
    let a = if app.shows_add_action() { 2int } else { 0int };
    let b: int = if pinned.len() > 0 { 1 + pinned.len() as int } else { 0 };
    assert forall|k: int| #![trigger rows[k]] 0 <= k < rows.len() && !(rows[k] is Header) implies 0 <= row_slot(
        rows[k],
    ) < app.selectable(suggestion_count) by {
        if k < a {
        } else if k < a + b {
            if k > a {
                assert(rows[k] == project_rows(pinned, add, sel)[k - a - 1]);
            }
        } else {
            if k > a + b {
                assert(rows[k] == project_rows(recents, add + pinned.len(), sel)[k - a - b - 1]);
            }
        }
    }
}

} // verus!
