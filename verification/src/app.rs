//! The picker's state: query, selection, recent and pinned projects, and the
//! actions a frame hands to the daemon.
use vstd::prelude::*;
use crate::paths::{expand_tilde, expanded};
use crate::projects::{ascii_lowercase, fuzzy_match, fuzzy_matches, is_ascii_text, is_subsequence};
use crate::text::{same_text, views};

verus! {

/// Which list the picker shows: projects to search, or directories to add.
#[derive(Debug, Clone, Copy, PartialEq, Eq, Structural)]
pub enum Mode {
    Search,
    Add,
}

/// Actions produced during a frame that require daemon-level responses.
#[derive(Debug)]
pub enum AppAction {
    Hide,
    OpenTerminal(String),
}

/// The picker's state apart from rendering: the query, the selection, the project
/// lists, the queued actions and the show/hide flags.
pub struct App {
    pub mode: Mode,
    pub query: String,
    pub selected_idx: Option<usize>,
    pub recents: Vec<String>,
    pub pinned: Vec<String>,
    pub pending_actions: Vec<AppAction>,
    pub focus_search: bool,
    /// True while animating in, false while animating out.
    pub anim_showing: bool,
    /// Set when the close animation completes: the daemon should hide the surface.
    pub anim_hide_pending: bool,
}

/// The character views of borrowed strings.
pub open spec fn str_views<'a>(v: Seq<&'a str>) -> Seq<Seq<char>> {
    Seq::new(v.len(), |i: int| v[i]@)
}

/// Keeps the paths that the query fuzzy-matches.
pub open spec fn matching(query: Seq<char>) -> spec_fn(Seq<char>) -> bool {
    |p: Seq<char>| fuzzy_matches(query, p)
}

/// Keeps the paths that the query fuzzy-matches and that are not pinned.
pub open spec fn matching_unpinned(query: Seq<char>, pinned: Seq<Seq<char>>) -> spec_fn(Seq<char>) -> bool {
    |p: Seq<char>| fuzzy_matches(query, p) && !pinned.contains(p)
}

/// Keeps the paths that are not pinned.
pub open spec fn unpinned(pinned: Seq<Seq<char>>) -> spec_fn(Seq<char>) -> bool {
    |p: Seq<char>| !pinned.contains(p)
}

/// Keeps the paths other than `path`.
pub open spec fn differs_from(path: Seq<char>) -> spec_fn(Seq<char>) -> bool {
    |p: Seq<char>| p != path
}

/// Some queued action opens a terminal.
pub open spec fn has_open_request(actions: Seq<AppAction>) -> bool {
    exists|i: int| 0 <= i < actions.len() && #[trigger] actions[i] is OpenTerminal
}

/// The pinned list after pinning or unpinning `path`: its first occurrence is
/// removed if it is there, otherwise it is appended.
pub open spec fn toggled(pinned: Seq<Seq<char>>, path: Seq<char>) -> Seq<Seq<char>> {
    match pinned.index_of_first(path) {
        Some(i) => pinned.remove(i),
        None => pinned.push(path),
    }
}

/// Whether the list holds a string equal to `s`.
pub fn contains_text(v: &Vec<String>, s: &str) -> (r: bool)
    ensures
        r == views(v@).contains(s@),
{
    let mut i: usize = 0;
    while i < v.len()
        invariant
            i <= v@.len(),
            forall|k: int| 0 <= k < i ==> views(v@)[k] != s@,
        decreases v@.len() - i,
    {
        if same_text(v[i].as_str(), s) {
            assert(views(v@)[i as int] == s@);
            return true;
        }
        i += 1;
    }
    false
}

/// The index of the first string equal to `s`, if any.
fn position_of(v: &Vec<String>, s: &str) -> (r: Option<usize>)
    ensures
        r matches Some(i) ==> views(v@).index_of_first(s@) == Some(i as int),
        r is None ==> views(v@).index_of_first(s@) is None,
{
    let mut i: usize = 0;
    while i < v.len()
        invariant
            i <= v@.len(),
            forall|k: int| 0 <= k < i ==> views(v@)[k] != s@,
        decreases v@.len() - i,
    {
        if same_text(v[i].as_str(), s) {
            proof {
                views(v@).index_of_first_ensures(s@);
                assert(views(v@)[i as int] == s@);
                let j = views(v@).index_of_first(s@).unwrap();
                if j < i {
                    assert(views(v@)[j] != s@);
                }
                if j > i {
                    assert(views(v@)[i as int] != s@);
                }
            }
            return Some(i);
        }
        i += 1;
    }
    proof {
        views(v@).index_of_first_ensures(s@);
        if views(v@).contains(s@) {
            let k = choose|k: int| 0 <= k < views(v@).len() && views(v@)[k] == s@;
            assert(views(v@)[k] != s@);
        }
    }
    None
}

/// The strings of `v` other than `path`, in order.
fn without(v: &Vec<String>, path: &str) -> (r: Vec<String>)
    ensures
        views(r@) == views(v@).filter(differs_from(path@)),
{
    let mut out: Vec<String> = Vec::new();
    let mut i: usize = 0;
    assert(views(v@).take(0) =~= Seq::<Seq<char>>::empty());
    assert(views(out@) =~= views(v@).take(0).filter(differs_from(path@))) by {
        reveal(Seq::filter);
    }
    while i < v.len()
        invariant
            i <= v@.len(),
            views(out@) == views(v@).take(i as int).filter(differs_from(path@)),
        decreases v@.len() - i,
    {
        let ghost before = out@;
        if !same_text(v[i].as_str(), path) {
            out.push(v[i].clone());
            assert(views(out@) =~= views(before).push(v@[i as int]@));
        } else {
            assert(views(out@) =~= views(before));
        }
        proof {
            assert(views(v@).take(i + 1) =~= views(v@).take(i as int).push(views(v@)[i as int]));
            views(v@).take(i as int).lemma_filter_push(views(v@)[i as int], differs_from(path@));
        }
        i += 1;
    }
    assert(views(v@).take(v@.len() as int) =~= views(v@));
    out
}

/// A key press that the picker acts on.
#[derive(Debug, Clone, Copy, PartialEq, Eq, Structural)]
pub enum KeyInput {
    Enter,
    Down,
    Up,
    Tab { shift: bool },
    AltBackspace,
    AltP,
}

/// What the daemon must do after a key press besides redrawing.
#[derive(Debug)]
pub enum KeyEffect {
    Nothing,
    /// The recent list changed and should be saved.
    RecentsChanged,
    /// The pinned list changed and should be saved.
    PinnedChanged,
    /// Open this path as a project if it is a directory.
    OpenIfDirectory(String),
}

/// What a position in the search list stands for.
pub enum Slot {
    AddAction,
    Pinned(Seq<char>),
    Recent(Seq<char>),
    Empty,
}

/// The selection after moving it by `delta` among `count` rows: down from no selection
/// selects the first row, up past the first row clears the selection, and moving past
/// the last row stays on it.
pub open spec fn moved(sel: Option<usize>, delta: i32, count: usize) -> Option<usize> {
    if count == 0 {
        sel
    } else {
        match sel {
            None => if delta > 0 { Some(0usize) } else { None },
            Some(i) => {
                let next = (i as i32) + delta;
                if next < 0 {
                    None
                } else if next >= count {
                    Some((count - 1) as usize)
                } else {
                    Some(next as usize)
                }
            },
        }
    }
}

/// Moving the selection by `delta` stays within `i32`.
pub open spec fn step_fits(sel: Option<usize>, delta: i32) -> bool {
    sel matches Some(i) ==> i32::MIN <= (i as i32) + delta <= i32::MAX
}

/// `post` is `pre` with the same mode, query, selection, focus and animation flags.
pub open spec fn same_ui(pre: App, post: App) -> bool {
    &&& post.mode == pre.mode
    &&& post.query == pre.query
    &&& post.selected_idx == pre.selected_idx
    &&& post.focus_search == pre.focus_search
    &&& post.anim_showing == pre.anim_showing
    &&& post.anim_hide_pending == pre.anim_hide_pending
}

/// `post` is `pre` switched to add mode with an empty query and no selection.
pub open spec fn entered_add_mode(pre: App, post: App) -> bool {
    &&& post.mode == Mode::Add
    &&& post.query@.len() == 0
    &&& post.selected_idx is None
    &&& post.focus_search
    &&& post.anim_showing == pre.anim_showing
    &&& post.anim_hide_pending == pre.anim_hide_pending
    &&& post.recents == pre.recents
    &&& post.pinned == pre.pinned
    &&& post.pending_actions == pre.pending_actions
}

/// Opening `path`: ignored (`acted` false, nothing changes) when a terminal open is
/// already queued; otherwise `path` moves to the front of the recent list (once), and
/// opening it in a terminal, then hiding, are queued.
pub open spec fn opened(pre: App, post: App, path: Seq<char>, acted: bool) -> bool {
    if has_open_request(pre.pending_actions@) {
        !acted && post == pre
    } else {
        &&& acted
        &&& same_ui(pre, post)
        &&& post.pinned == pre.pinned
        &&& views(post.recents@) == seq![path] + views(pre.recents@).filter(differs_from(path))
        &&& post.pending_actions@.len() == pre.pending_actions@.len() + 2
        &&& post.pending_actions@.take(pre.pending_actions@.len() as int) == pre.pending_actions@
        &&& (post.pending_actions@[pre.pending_actions@.len() as int] matches AppAction::OpenTerminal(p)
            && p@ == path)
        &&& post.pending_actions@[pre.pending_actions@.len() + 1int] is Hide
    }
}

impl App {
    /// The pinned paths that the query matches, in pinned order.
    pub open spec fn shown_pinned(&self) -> Seq<Seq<char>> {
        views(self.pinned@).filter(matching(self.query@))
    }

    /// The recent paths that the query matches and that are not pinned, in recent order.
    pub open spec fn shown_recents(&self) -> Seq<Seq<char>> {
        views(self.recents@).filter(matching_unpinned(self.query@, views(self.pinned@)))
    }

    /// The "Add project" action is listed when the query is empty or matches it.
    pub open spec fn shows_add_action(&self) -> bool {
        self.query@.len() == 0 || fuzzy_matches(self.query@, "add project"@)
    }

    /// A fresh picker over the given recent and pinned projects: search mode, empty
    /// query, nothing selected, hidden.
    pub fn new(recents: Vec<String>, pinned: Vec<String>) -> (r: App)
        ensures
            r.mode == Mode::Search,
            r.query@.len() == 0,
            r.selected_idx is None,
            r.recents == recents,
            r.pinned == pinned,
            r.pending_actions@.len() == 0,
            !r.focus_search,
            !r.anim_showing,
            !r.anim_hide_pending,
    {
        App {
            mode: Mode::Search,
            query: String::new(),
            selected_idx: None,
            recents,
            pinned,
            pending_actions: Vec::new(),
            focus_search: false,
            anim_showing: false,
            anim_hide_pending: false,
        }
    }

    /// Resets the picker for showing: empty query, no selection, search mode, focus on
    /// the search field, animating in.
    pub fn on_show(&mut self)
        ensures
            final(self).query@.len() == 0,
            final(self).selected_idx is None,
            final(self).mode == Mode::Search,
            final(self).focus_search,
            final(self).anim_showing,
            !final(self).anim_hide_pending,
            final(self).recents == old(self).recents,
            final(self).pinned == old(self).pinned,
            final(self).pending_actions == old(self).pending_actions,
    {
        self.query = String::new();
        self.selected_idx = None;
        self.mode = Mode::Search;
        self.focus_search = true;
        self.anim_showing = true;
        self.anim_hide_pending = false;
    }

    /// Begins the close animation; the surface is hidden when it completes.
    pub fn begin_hide(&mut self)
        ensures
            *final(self) == (App { anim_showing: false, ..*old(self) }),
    {
        self.anim_showing = false;
    }

    /// Whether the close animation has finished and the window should go away; the
    /// request is consumed.
    pub fn take_hide_request(&mut self) -> (r: bool)
        ensures
            r == old(self).anim_hide_pending,
            *final(self) == (App { anim_hide_pending: false, ..*old(self) }),
    {
        let r = self.anim_hide_pending;
        self.anim_hide_pending = false;
        r
    }

    /// Hands over the queued actions, leaving none queued.
    pub fn drain_actions(&mut self) -> (r: Vec<AppAction>)
        ensures
            r@ == old(self).pending_actions@,
            final(self).pending_actions@.len() == 0,
            final(self).mode == old(self).mode,
            final(self).query == old(self).query,
            final(self).selected_idx == old(self).selected_idx,
            final(self).recents == old(self).recents,
            final(self).pinned == old(self).pinned,
            final(self).focus_search == old(self).focus_search,
            final(self).anim_showing == old(self).anim_showing,
            final(self).anim_hide_pending == old(self).anim_hide_pending,
    {
        let mut taken: Vec<AppAction> = Vec::new();
        std::mem::swap(&mut taken, &mut self.pending_actions);
        taken
    }

    /// Whether the "Add project" action is listed.
    pub fn show_add_action(&self) -> (r: bool)
        ensures
            r == self.shows_add_action(),
            is_ascii_text(self.query@) ==> r == (self.query@.len() == 0 || is_subsequence(
                ascii_lowercase(self.query@),
                "add project"@,
            )),
    {
        let r = self.query.as_str().is_empty() || fuzzy_match(self.query.as_str(), "add project");
        proof {
            reveal_strlit("add project");
            assert(is_ascii_text("add project"@));
            assert(ascii_lowercase("add project"@) =~= "add project"@);
        }
        r
    }

    /// The pinned projects that match the query, in pinned order.
    pub fn filtered_pinned(&self) -> (r: Vec<&str>)
        ensures
            str_views(r@) == self.shown_pinned(),
            self.query@.len() == 0 ==> str_views(r@) == views(self.pinned@),
    {
        let ghost pred = matching(self.query@);
        let ghost all = views(self.pinned@);
        let mut out: Vec<&str> = Vec::new();
        let mut i: usize = 0;
        assert(all.take(0) =~= Seq::<Seq<char>>::empty());
        assert(str_views(out@) =~= all.take(0).filter(pred)) by {
            reveal(Seq::filter);
        }
        while i < self.pinned.len()
            invariant
                pred == matching(self.query@),
                all == views(self.pinned@),
                i <= self.pinned@.len(),
                str_views(out@) == all.take(i as int).filter(pred),
                self.query@.len() == 0 ==> str_views(out@) == all.take(i as int),
            decreases self.pinned@.len() - i,
        {
            let p: &str = self.pinned[i].as_str();
            let ghost before = out@;
            if fuzzy_match(self.query.as_str(), p) {
                out.push(p);
                assert(str_views(out@) =~= str_views(before).push(p@));
            } else {
                assert(str_views(out@) =~= str_views(before));
            }
            proof {
                assert(all.take(i + 1) =~= all.take(i as int).push(all[i as int]));
                all.take(i as int).lemma_filter_push(all[i as int], pred);
            }
            i += 1;
        }
        assert(all.take(self.pinned@.len() as int) =~= all);
        out
    }

    /// The recent projects that match the query, with pinned projects left out (they
    /// are listed above), in recent order.
    pub fn filtered_recents_unpinned(&self) -> (r: Vec<&str>)
        ensures
            str_views(r@) == self.shown_recents(),
            self.query@.len() == 0 ==> str_views(r@) == views(self.recents@).filter(unpinned(views(self.pinned@))),
    {
        let ghost pred = matching_unpinned(self.query@, views(self.pinned@));
        let ghost all = views(self.recents@);
        let mut out: Vec<&str> = Vec::new();
        let mut i: usize = 0;
        assert(all.take(0) =~= Seq::<Seq<char>>::empty());
        assert(str_views(out@) =~= all.take(0).filter(pred)) by {
            reveal(Seq::filter);
        }
        assert(str_views(out@) =~= all.take(0).filter(unpinned(views(self.pinned@)))) by {
            reveal(Seq::filter);
        }
        while i < self.recents.len()
            invariant
                pred == matching_unpinned(self.query@, views(self.pinned@)),
                all == views(self.recents@),
                i <= self.recents@.len(),
                str_views(out@) == all.take(i as int).filter(pred),
                self.query@.len() == 0 ==> str_views(out@) == all.take(i as int).filter(unpinned(views(self.pinned@))),
            decreases self.recents@.len() - i,
        {
            let p: &str = self.recents[i].as_str();
            let ghost before = out@;
            if fuzzy_match(self.query.as_str(), p) && !contains_text(&self.pinned, p) {
                out.push(p);
                assert(str_views(out@) =~= str_views(before).push(p@));
            } else {
                assert(str_views(out@) =~= str_views(before));
            }
            proof {
                assert(all.take(i + 1) =~= all.take(i as int).push(all[i as int]));
                all.take(i as int).lemma_filter_push(all[i as int], pred);
                all.take(i as int).lemma_filter_push(all[i as int], unpinned(views(self.pinned@)));
            }
            i += 1;
        }
        assert(all.take(self.recents@.len() as int) =~= all);
        out
    }
}

impl App {
    /// The number of selectable rows: in search mode the add action (if listed) and
    /// the listed pinned and recent projects; in add mode the completions.
    pub open spec fn selectable(&self, suggestion_count: nat) -> nat {
        match self.mode {
            Mode::Search => self.search_count(),
            Mode::Add => suggestion_count,
        }
    }

    /// The number of selectable rows of the search list.
    pub open spec fn search_count(&self) -> nat {
        (if self.shows_add_action() { 1nat } else { 0nat }) + self.shown_pinned().len()
            + self.shown_recents().len()
    }

    /// The project lists are short enough for the row count to fit in `usize`.
    pub open spec fn within_limits(&self) -> bool {
        self.pinned@.len() + self.recents@.len() < usize::MAX
    }

    /// What search-list position `idx` stands for: the add action first (when listed),
    /// then the listed pinned projects, then the listed recent projects.
    pub open spec fn search_slot(&self, idx: int) -> Slot {
        let add: int = if self.shows_add_action() { 1 } else { 0 };
        let pinned = self.shown_pinned();
        let recents = self.shown_recents();
        if self.shows_add_action() && idx == 0 {
            Slot::AddAction
        } else if 0 <= idx < add + pinned.len() {
            Slot::Pinned(pinned[idx - add])
        } else if add + pinned.len() <= idx < add + pinned.len() + recents.len() {
            Slot::Recent(recents[idx - add - pinned.len()])
        } else {
            Slot::Empty
        }
    }

    /// The row Enter acts on: the selected one, or the first when nothing is selected
    /// and there are rows.
    pub open spec fn target_row(&self, count: nat) -> Option<int> {
        match self.selected_idx {
            Some(i) => Some(i as int),
            None => if count > 0 { Some(0) } else { None },
        }
    }
}

/// Enter: act on the target row. In search mode the add action enters add mode and a
/// project row opens the project; in add mode a completion is handed back, expanded,
/// to be opened if it is a directory.
pub open spec fn activated(
    pre: App,
    post: App,
    eff: KeyEffect,
    suggestions: Seq<Seq<char>>,
    home: Seq<char>,
) -> bool {
    match pre.target_row(pre.selectable(suggestions.len())) {
        None => post == pre && eff is Nothing,
        Some(idx) => match pre.mode {
            Mode::Search => match pre.search_slot(idx) {
                Slot::AddAction => entered_add_mode(pre, post) && eff is Nothing,
                Slot::Pinned(p) => opened(pre, post, p, eff is RecentsChanged) && (eff is RecentsChanged
                    || eff is Nothing),
                Slot::Recent(p) => opened(pre, post, p, eff is RecentsChanged) && (eff is RecentsChanged
                    || eff is Nothing),
                Slot::Empty => post == pre && eff is Nothing,
            },
            Mode::Add => if idx < suggestions.len() {
                post == pre && (eff matches KeyEffect::OpenIfDirectory(a) && a@ == expanded(
                    suggestions[idx],
                    home,
                ))
            } else {
                post == pre && eff is Nothing
            },
        },
    }
}

impl App {
    /// Pins `path`, or unpins it if it is pinned.
    pub fn toggle_pin(&mut self, path: &str)
        ensures
            same_ui(*old(self), *final(self)),
            final(self).recents == old(self).recents,
            final(self).pending_actions == old(self).pending_actions,
            views(final(self).pinned@) == toggled(views(old(self).pinned@), path@),
    {
        let ghost before = self.pinned@;
        proof {
            views(self.pinned@).index_of_first_ensures(path@);
        }
        match position_of(&self.pinned, path) {
            Some(pos) => {
                self.pinned.remove(pos);
                assert(views(self.pinned@) =~= views(before).remove(pos as int));
            },
            None => {
                self.pinned.push(path.to_owned());
                assert(views(self.pinned@) =~= views(before).push(path@));
            },
        }
    }

    /// Removes `path` from the recent projects.
    pub fn remove_project(&mut self, path: &str)
        ensures
            same_ui(*old(self), *final(self)),
            final(self).pinned == old(self).pinned,
            final(self).pending_actions == old(self).pending_actions,
            views(final(self).recents@) == views(old(self).recents@).filter(differs_from(path@)),
    {
        self.recents = without(&self.recents, path);
    }

    /// Opens `path`: moves it to the front of the recent projects and queues opening a
    /// terminal there, then hiding. Ignored, returning false, when a terminal open is
    /// already queued (a click and Enter in the same frame).
    pub fn open_project(&mut self, path: &str) -> (acted: bool)
        ensures
            opened(*old(self), *final(self), path@, acted),
    {
        let mut i: usize = 0;
        while i < self.pending_actions.len()
            invariant
                i <= self.pending_actions@.len(),
                forall|k: int| 0 <= k < i ==> !(#[trigger] self.pending_actions@[k] is OpenTerminal),
            decreases self.pending_actions@.len() - i,
        {
            match &self.pending_actions[i] {
                AppAction::OpenTerminal(_) => {
                    assert(self.pending_actions@[i as int] is OpenTerminal);
                    return false;
                },
                AppAction::Hide => {},
            }
            i += 1;
        }
        let ghost pre = *self;
        let kept = without(&self.recents, path);
        let mut recents: Vec<String> = Vec::new();
        recents.push(path.to_owned());
        let mut j: usize = 0;
        while j < kept.len()
            invariant
                j <= kept@.len(),
                views(recents@) == seq![path@] + views(kept@).take(j as int),
            decreases kept@.len() - j,
        {
            let ghost before = recents@;
            recents.push(kept[j].clone());
            assert(views(recents@) =~= views(before).push(kept@[j as int]@));
            assert(views(kept@).take(j + 1) =~= views(kept@).take(j as int).push(views(kept@)[j as int]));
            j += 1;
        }
        assert(views(kept@).take(kept@.len() as int) =~= views(kept@));
        self.recents = recents;
        let ghost actions_before = self.pending_actions@;
        self.pending_actions.push(AppAction::OpenTerminal(path.to_owned()));
        self.pending_actions.push(AppAction::Hide);
        assert(self.pending_actions@.take(actions_before.len() as int) =~= actions_before);
        true
    }

    /// Switches to add mode with an empty query and no selection, focusing the field.
    pub fn enter_add_mode(&mut self)
        ensures
            entered_add_mode(*old(self), *final(self)),
    {
        self.mode = Mode::Add;
        self.query = String::new();
        self.selected_idx = None;
        self.focus_search = true;
    }

    /// Escape: leaves add mode for search mode with an empty query; in search mode it
    /// begins hiding.
    pub fn on_escape(&mut self)
        ensures
            old(self).mode == Mode::Add ==> *final(self) == (App {
                mode: Mode::Search,
                query: final(self).query,
                selected_idx: None,
                focus_search: true,
                ..*old(self)
            }) && final(self).query@.len() == 0,
            old(self).mode == Mode::Search ==> *final(self) == (App { anim_showing: false, ..*old(self) }),
    {
        if self.mode == Mode::Add {
            self.mode = Mode::Search;
            self.query = String::new();
            self.selected_idx = None;
            self.focus_search = true;
        } else {
            self.begin_hide();
        }
    }

    /// Whether the search field should take keyboard focus this frame (a focus request
    /// is pending, or nothing is selected); the pending request is consumed.
    pub fn take_focus_request(&mut self) -> (r: bool)
        ensures
            r == (old(self).focus_search || old(self).selected_idx is None),
            *final(self) == (App { focus_search: false, ..*old(self) }),
    {
        let r = self.focus_search || self.selected_idx.is_none();
        self.focus_search = false;
        r
    }

    /// The query was edited: the selection is cleared.
    pub fn on_query_changed(&mut self)
        ensures
            *final(self) == (App { selected_idx: None, ..*old(self) }),
    {
        self.selected_idx = None;
    }

    /// The search field's placeholder for the current mode.
    pub fn placeholder(&self) -> (r: &'static str)
        ensures
            self.mode == Mode::Search ==> r@ == "Search projects..."@,
            self.mode == Mode::Add ==> r@ == "Type directory path..."@,
    {
        match self.mode {
            Mode::Search => "Search projects...",
            Mode::Add => "Type directory path...",
        }
    }

    /// The number of selectable rows, given the number of add-mode completions.
    pub fn selectable_count(&self, suggestion_count: usize) -> (r: usize)
        requires
            self.within_limits(),
        ensures
            r == self.selectable(suggestion_count as nat),
    {
        match self.mode {
            Mode::Search => {
                proof {
                    views(self.pinned@).lemma_filter_len(matching(self.query@));
                    views(self.recents@).lemma_filter_len(matching_unpinned(self.query@, views(self.pinned@)));
                }
                let add: usize = if self.show_add_action() { 1 } else { 0 };
                let p = self.filtered_pinned();
                let r = self.filtered_recents_unpinned();
                assert(str_views(p@).len() == p@.len());
                assert(str_views(r@).len() == r@.len());
                add + p.len() + r.len()
            },
            Mode::Add => suggestion_count,
        }
    }

    /// Moves the selection by `delta` among `count` rows.
    pub fn move_selection(&mut self, delta: i32, count: usize)
        requires
            step_fits(old(self).selected_idx, delta),
        ensures
            *final(self) == (App { selected_idx: moved(old(self).selected_idx, delta, count), ..*old(self) }),
    {
        if count == 0 {
            return;
        }
        self.selected_idx = match self.selected_idx {
            None => if delta > 0 { Some(0) } else { None },
            Some(i) => {
                let next = i as i32 + delta;
                if next < 0 {
                    None
                } else if next as usize >= count {
                    Some(count - 1)
                } else {
                    Some(next as usize)
                }
            },
        };
    }
}

impl App {
    /// What the selected search-list row stands for (nothing outside search mode).
    pub open spec fn selected_slot(&self) -> Slot {
        match self.selected_idx {
            Some(i) => if self.mode == Mode::Search { self.search_slot(i as int) } else { Slot::Empty },
            None => Slot::Empty,
        }
    }
}

/// Alt+Backspace: a selected recent project is removed from the recent list and the
/// selection cleared; on any other row nothing happens.
pub open spec fn removed_selected(pre: App, post: App, eff: KeyEffect) -> bool {
    match pre.selected_slot() {
        Slot::Recent(p) => {
            &&& views(post.recents@) == views(pre.recents@).filter(differs_from(p))
            &&& post.pinned == pre.pinned
            &&& post.pending_actions == pre.pending_actions
            &&& post.mode == pre.mode
            &&& post.query == pre.query
            &&& post.selected_idx is None
            &&& post.focus_search
            &&& post.anim_showing == pre.anim_showing
            &&& post.anim_hide_pending == pre.anim_hide_pending
            &&& eff is RecentsChanged
        },
        _ => post == pre && eff is Nothing,
    }
}

/// Alt+P: a selected pinned or recent project is pinned or unpinned; on any other row
/// nothing happens.
pub open spec fn pinned_selected(pre: App, post: App, eff: KeyEffect) -> bool {
    match pre.selected_slot() {
        Slot::Pinned(p) => {
            &&& same_ui(pre, post)
            &&& post.recents == pre.recents
            &&& post.pending_actions == pre.pending_actions
            &&& views(post.pinned@) == toggled(views(pre.pinned@), p)
            &&& eff is PinnedChanged
        },
        Slot::Recent(p) => {
            &&& same_ui(pre, post)
            &&& post.recents == pre.recents
            &&& post.pending_actions == pre.pending_actions
            &&& views(post.pinned@) == toggled(views(pre.pinned@), p)
            &&& eff is PinnedChanged
        },
        _ => post == pre && eff is Nothing,
    }
}

/// The effect of one key press, with `count` selectable rows counted at the start of
/// the frame.
pub open spec fn key_handled(
    pre: App,
    post: App,
    key: KeyInput,
    count: usize,
    suggestions: Seq<Seq<char>>,
    home: Seq<char>,
    eff: KeyEffect,
) -> bool {
    match key {
        KeyInput::Enter => activated(pre, post, eff, suggestions, home),
        KeyInput::Down => post == (App { selected_idx: moved(pre.selected_idx, 1i32, count), ..pre })
            && eff is Nothing,
        KeyInput::Up => post == (App { selected_idx: moved(pre.selected_idx, -1i32, count), ..pre })
            && eff is Nothing,
        KeyInput::Tab { shift } => post == (App {
            selected_idx: moved(pre.selected_idx, if shift { -1i32 } else { 1i32 }, count),
            ..pre
        }) && eff is Nothing,
        KeyInput::AltBackspace => removed_selected(pre, post, eff),
        KeyInput::AltP => pinned_selected(pre, post, eff),
    }
}

impl App {
    /// Enter: acts on the selected row, or on the first row when nothing is selected.
    pub fn activate_selected(&mut self, suggestions: &Vec<String>, home: &str) -> (eff: KeyEffect)
        requires
            old(self).within_limits(),
        ensures
            activated(*old(self), *final(self), eff, views(suggestions@), home@),
    {
        let count = self.selectable_count(suggestions.len());
        assert(views(suggestions@).len() == suggestions@.len());
        let idx = match self.selected_idx {
            Some(i) => i,
            None => {
                if count > 0 {
                    0
                } else {
                    return KeyEffect::Nothing;
                }
            },
        };
        match self.mode {
            Mode::Search => {
                proof {
                    views(self.pinned@).lemma_filter_len(matching(self.query@));
                }
                let show_add = self.show_add_action();
                let offset_add: usize = if show_add { 1 } else { 0 };
                let pinned = self.filtered_pinned();
                assert(str_views(pinned@).len() == pinned@.len());
                let offset_recent = offset_add + pinned.len();
                if show_add && idx == 0 {
                    self.enter_add_mode();
                    KeyEffect::Nothing
                } else if idx < offset_recent {
                    let path = pinned[idx - offset_add].to_owned();
                    assert(path@ == self.shown_pinned()[idx - offset_add]);
                    if self.open_project(&path) {
                        KeyEffect::RecentsChanged
                    } else {
                        KeyEffect::Nothing
                    }
                } else {
                    let recents = self.filtered_recents_unpinned();
                    assert(str_views(recents@).len() == recents@.len());
                    if idx - offset_recent < recents.len() {
                        let path = recents[idx - offset_recent].to_owned();
                        assert(path@ == self.shown_recents()[idx - offset_recent]);
                        if self.open_project(&path) {
                            KeyEffect::RecentsChanged
                        } else {
                            KeyEffect::Nothing
                        }
                    } else {
                        KeyEffect::Nothing
                    }
                }
            },
            Mode::Add => {
                if idx < suggestions.len() {
                    KeyEffect::OpenIfDirectory(expand_tilde(suggestions[idx].as_str(), home))
                } else {
                    KeyEffect::Nothing
                }
            },
        }
    }

    /// The path of the selected project row, when the selection is on a listed pinned
    /// project (`pinned_rows` true) or recent project (`recent_rows` true).
    fn selected_project(&self, pinned_rows: bool, recent_rows: bool) -> (r: Option<String>)
        requires
            self.within_limits(),
        ensures
            r matches Some(p) ==> (self.selected_slot() matches Slot::Pinned(q) && pinned_rows && p@ == q)
                || (self.selected_slot() matches Slot::Recent(q) && recent_rows && p@ == q),
            r is None ==> !(pinned_rows && self.selected_slot() is Pinned) && !(recent_rows
                && self.selected_slot() is Recent),
    {
        let idx = match self.selected_idx {
            Some(i) => i,
            None => return None,
        };
        if self.mode != Mode::Search {
            return None;
        }
        proof {
            views(self.pinned@).lemma_filter_len(matching(self.query@));
        }
        let offset_add: usize = if self.show_add_action() { 1 } else { 0 };
        let pinned = self.filtered_pinned();
        assert(str_views(pinned@).len() == pinned@.len());
        let offset_recent = offset_add + pinned.len();
        if idx >= offset_recent {
            if !recent_rows {
                return None;
            }
            let recents = self.filtered_recents_unpinned();
            assert(str_views(recents@).len() == recents@.len());
            if idx - offset_recent < recents.len() {
                let path = recents[idx - offset_recent].to_owned();
                assert(path@ == self.shown_recents()[idx - offset_recent]);
                Some(path)
            } else {
                None
            }
        } else if idx >= offset_add {
            if !pinned_rows {
                return None;
            }
            let path = pinned[idx - offset_add].to_owned();
            assert(path@ == self.shown_pinned()[idx - offset_add]);
            Some(path)
        } else {
            None
        }
    }

    /// Acts on one key press. `count` is the number of selectable rows, counted once at
    /// the start of the frame; `suggestions` are the add-mode completions and `home` the
    /// home directory they are expanded against.
    pub fn handle_key(
        &mut self,
        key: KeyInput,
        count: usize,
        suggestions: &Vec<String>,
        home: &str,
    ) -> (eff: KeyEffect)
        requires
            old(self).within_limits(),
            (key == KeyInput::Down || key == (KeyInput::Tab { shift: false })) ==> step_fits(
                old(self).selected_idx,
                1i32,
            ),
            (key == KeyInput::Up || key == (KeyInput::Tab { shift: true })) ==> step_fits(
                old(self).selected_idx,
                -1i32,
            ),
        ensures
            key_handled(*old(self), *final(self), key, count, views(suggestions@), home@, eff),
    {
        match key {
            KeyInput::Enter => self.activate_selected(suggestions, home),
            KeyInput::Down => {
                self.move_selection(1, count);
                KeyEffect::Nothing
            },
            KeyInput::Up => {
                self.move_selection(-1, count);
                KeyEffect::Nothing
            },
            KeyInput::Tab { shift } => {
                if shift {
                    self.move_selection(-1, count);
                } else {
                    self.move_selection(1, count);
                }
                KeyEffect::Nothing
            },
            KeyInput::AltBackspace => match self.selected_project(false, true) {
                Some(path) => {
                    self.remove_project(&path);
                    self.selected_idx = None;
                    self.focus_search = true;
                    KeyEffect::RecentsChanged
                },
                None => KeyEffect::Nothing,
            },
            KeyInput::AltP => match self.selected_project(true, true) {
                Some(path) => {
                    self.toggle_pin(&path);
                    KeyEffect::PinnedChanged
                },
                None => KeyEffect::Nothing,
            },
        }
    }
}

/// The sequence holds no element twice.
pub open spec fn no_duplicates(s: Seq<Seq<char>>) -> bool {
    forall|i: int, j: int| 0 <= i < j < s.len() ==> s[i] != s[j]
}

/// At most one queued action opens a terminal.
pub open spec fn at_most_one_open(actions: Seq<AppAction>) -> bool {
    forall|i: int, j: int|
        0 <= i < j < actions.len() ==> !(#[trigger] actions[i] is OpenTerminal && #[trigger] actions[j] is OpenTerminal)
}

/// Pinned projects are never listed again among the recent projects, and the listed
/// projects all come from their lists.
pub proof fn law_listed_projects_come_from_lists(app: App)
    ensures
        forall|i: int| 0 <= i < app.shown_recents().len() ==> !views(app.pinned@).contains(
            #[trigger] app.shown_recents()[i],
        ) && views(app.recents@).contains(app.shown_recents()[i]),
        forall|i: int| 0 <= i < app.shown_pinned().len() ==> views(app.pinned@).contains(
            #[trigger] app.shown_pinned()[i],
        ),
{
    broadcast use vstd::seq_lib::group_filter_ensures;
    let pred = matching_unpinned(app.query@, views(app.pinned@));
    assert forall|i: int| 0 <= i < app.shown_recents().len() implies !views(app.pinned@).contains(
        #[trigger] app.shown_recents()[i],
    ) && views(app.recents@).contains(app.shown_recents()[i]) by {
        views(app.recents@).lemma_filter_pred(pred, i);
        views(app.recents@).lemma_filter_contains_rev(pred, app.shown_recents()[i]);
    }
    assert forall|i: int| 0 <= i < app.shown_pinned().len() implies views(app.pinned@).contains(
        #[trigger] app.shown_pinned()[i],
    ) by {
        views(app.pinned@).lemma_filter_contains_rev(matching(app.query@), app.shown_pinned()[i]);
    }
}

/// Pinning a project that is not pinned and then toggling it again gives the pinned
/// list back.
pub proof fn law_toggle_pin_twice_restores(pinned: Seq<Seq<char>>, path: Seq<char>)
    requires
        !pinned.contains(path),
    ensures
        toggled(toggled(pinned, path), path) == pinned,
{
    pinned.index_of_first_ensures(path);
    let once = pinned.push(path);
    once.index_of_first_ensures(path);
    assert(once[pinned.len() as int] == path);
    let i = once.index_of_first(path).unwrap();
    if i < pinned.len() {
        assert(pinned[i] == path);
    }
    assert(once.remove(pinned.len() as int) =~= pinned);
}

/// In a pinned list without repeats, toggling a path flips whether it is pinned and
/// keeps the list free of repeats.
pub proof fn law_toggle_pin_flips_membership(pinned: Seq<Seq<char>>, path: Seq<char>)
    requires
        no_duplicates(pinned),
    ensures
        toggled(pinned, path).contains(path) == !pinned.contains(path),
        no_duplicates(toggled(pinned, path)),
{
    pinned.index_of_first_ensures(path);
    let t = toggled(pinned, path);
    match pinned.index_of_first(path) {
        Some(i) => {
            assert(t =~= pinned.remove(i));
            if t.contains(path) {
                let k = choose|k: int| 0 <= k < t.len() && t[k] == path;
                if k < i {
                    assert(pinned[k] == path);
                } else {
                    assert(pinned[k + 1] == path);
                }
            }
            assert forall|a: int, b: int| 0 <= a < b < t.len() implies t[a] != t[b] by {
                let a2 = if a < i { a } else { a + 1 };
                let b2 = if b < i { b } else { b + 1 };
                assert(t[a] == pinned[a2] && t[b] == pinned[b2]);
            }
        },
        None => {
            assert(t[pinned.len() as int] == path);
            assert forall|a: int, b: int| 0 <= a < b < t.len() implies t[a] != t[b] by {
                if b == pinned.len() {
                    assert(t[a] == pinned[a]);
                }
            }
        },
    }
}

/// After a project is opened it is first in the recent list and occurs there once;
/// the other recent projects keep their order.
pub proof fn law_opened_project_first_and_once(pre: App, post: App, path: Seq<char>)
    requires
        opened(pre, post, path, true),
    ensures
        views(post.recents@).len() > 0,
        views(post.recents@)[0] == path,
        forall|i: int| 1 <= i < views(post.recents@).len() ==> #[trigger] views(post.recents@)[i] != path,
        views(post.recents@).drop_first() == views(pre.recents@).filter(differs_from(path)),
{
    broadcast use vstd::seq_lib::group_filter_ensures;
    let rest = views(pre.recents@).filter(differs_from(path));
    assert(views(post.recents@) == seq![path] + rest);
    assert forall|i: int| 1 <= i < views(post.recents@).len() implies #[trigger] views(post.recents@)[i] != path by {
        assert(views(post.recents@)[i] == rest[i - 1]);
        views(pre.recents@).lemma_filter_pred(differs_from(path), i - 1);
    }
    assert(views(post.recents@).drop_first() =~= rest);
}

/// Only one terminal open is ever queued: an open is ignored while one is queued, so
/// opening a second project in the same frame changes nothing.
pub proof fn law_one_terminal_open_per_frame(pre: App, mid: App, post: App, p1: Seq<char>, p2: Seq<char>, acted: bool)
    requires
        opened(pre, mid, p1, true),
        opened(mid, post, p2, acted),
    ensures
        !acted,
        post == mid,
        at_most_one_open(post.pending_actions@) <== at_most_one_open(pre.pending_actions@),
{
    let n = pre.pending_actions@.len() as int;
    assert(mid.pending_actions@[n] is OpenTerminal);
    if at_most_one_open(pre.pending_actions@) {
        assert forall|i: int, j: int| 0 <= i < j < post.pending_actions@.len() implies !(
        #[trigger] post.pending_actions@[i] is OpenTerminal && #[trigger] post.pending_actions@[j] is OpenTerminal) by {
            if i < n {
                assert(post.pending_actions@[i] == pre.pending_actions@[i]);
                assert(!(pre.pending_actions@[i] is OpenTerminal));
            }
        }
    }
}

/// A removed project is no longer among the recent projects.
pub proof fn law_removed_project_gone(recents: Seq<Seq<char>>, path: Seq<char>)
    ensures
        !recents.filter(differs_from(path)).contains(path),
{
    broadcast use vstd::seq_lib::group_filter_ensures;
    if recents.filter(differs_from(path)).contains(path) {
        let k = choose|k: int| 0 <= k < recents.filter(differs_from(path)).len() && recents.filter(differs_from(path))[k] == path;
        recents.lemma_filter_pred(differs_from(path), k);
    }
}

/// With rows to move among, a moved selection always designates one of them.
pub proof fn law_selection_stays_in_range(sel: Option<usize>, delta: i32, count: usize)
    requires
        count > 0,
        step_fits(sel, delta),
    ensures
        moved(sel, delta, count) matches Some(i) ==> i < count,
{
}

/// Moving down and then up returns to the same row, away from the list's ends.
pub proof fn law_down_then_up(i: usize, count: usize)
    requires
        i + 1 < count,
        i < i32::MAX,
    ensures
        moved(moved(Some(i), 1i32, count), -1i32, count) == Some(i),
{
    assert((i as i32) as int == i) by (bit_vector)
        requires i < 0x7fff_ffffusize;
    assert(((i + 1) as usize as i32) as int == i + 1) by (bit_vector)
        requires i < 0x7fff_ffffusize;
}

/// An element survives a filter exactly when it is in the list and passes the predicate.
proof fn lemma_filter_membership(s: Seq<Seq<char>>, f: spec_fn(Seq<char>) -> bool, x: Seq<char>)
    ensures
        s.filter(f).contains(x) <==> (s.contains(x) && f(x)),
{
    broadcast use vstd::seq_lib::group_filter_ensures;
    if s.filter(f).contains(x) {
        s.lemma_filter_contains_rev(f, x);
        let k = choose|k: int| 0 <= k < s.filter(f).len() && s.filter(f)[k] == x;
        s.lemma_filter_pred(f, k);
    }
    if s.contains(x) && f(x) {
        let k = choose|k: int| 0 <= k < s.len() && s[k] == x;
        s.lemma_filter_contains(f, k);
    }
}

proof fn lemma_filter_keeps_distinct(s: Seq<Seq<char>>, f: spec_fn(Seq<char>) -> bool)
    requires
        no_duplicates(s),
    ensures
        no_duplicates(s.filter(f)),
    decreases s.len(),
{
    reveal(Seq::filter);
    if s.len() > 0 {
        let rest = s.drop_last();
        assert(no_duplicates(rest)) by {
            assert forall|i: int, j: int| 0 <= i < j < rest.len() implies rest[i] != rest[j] by {
                assert(rest[i] == s[i] && rest[j] == s[j]);
            }
        }
        lemma_filter_keeps_distinct(rest, f);
        if f(s.last()) {
            let fr = rest.filter(f);
            let out = fr.push(s.last());
            assert(!rest.contains(s.last())) by {
                if rest.contains(s.last()) {
                    let k = choose|k: int| 0 <= k < rest.len() && rest[k] == s.last();
                    assert(s[k] == s[s.len() - 1]);
                }
            }
            lemma_filter_membership(rest, f, s.last());
            assert forall|i: int, j: int| 0 <= i < j < out.len() implies out[i] != out[j] by {
                if j == out.len() - 1 {
                    assert(out[i] == fr[i]);
                    assert(fr.contains(fr[i]));
                }
            }
        }
    }
}

proof fn lemma_filter_out_one_len(s: Seq<Seq<char>>, x: Seq<char>)
    requires
        no_duplicates(s),
    ensures
        s.filter(differs_from(x)).len() == s.len() - (if s.contains(x) { 1int } else { 0int }),
    decreases s.len(),
{
    reveal(Seq::filter);
    if s.len() > 0 {
        let rest = s.drop_last();
        assert(no_duplicates(rest)) by {
            assert forall|i: int, j: int| 0 <= i < j < rest.len() implies rest[i] != rest[j] by {
                assert(rest[i] == s[i] && rest[j] == s[j]);
            }
        }
        lemma_filter_out_one_len(rest, x);
        if s.last() == x {
            assert(!rest.contains(x)) by {
                if rest.contains(x) {
                    let k = choose|k: int| 0 <= k < rest.len() && rest[k] == x;
                    assert(s[k] == s[s.len() - 1]);
                }
            }
            assert(s.contains(x)) by {
                assert(s[s.len() - 1] == x);
            }
        } else {
            assert(s.contains(x) == rest.contains(x)) by {
                if s.contains(x) {
                    let k = choose|k: int| 0 <= k < s.len() && s[k] == x;
                    assert(k < s.len() - 1);
                    assert(rest[k] == x);
                }
                if rest.contains(x) {
                    let k = choose|k: int| 0 <= k < rest.len() && rest[k] == x;
                    assert(s[k] == x);
                }
            }
        }
    }
}

/// Opening a project keeps a repeat-free recent list repeat-free: it grows by one
/// exactly when the project was not there, and holds the old projects and the opened
/// one.
pub proof fn law_open_project_keeps_recents_distinct(pre: App, post: App, path: Seq<char>)
    requires
        opened(pre, post, path, true),
        no_duplicates(views(pre.recents@)),
    ensures
        no_duplicates(views(post.recents@)),
        views(post.recents@).len() == views(pre.recents@).len() + (if views(pre.recents@).contains(path) {
            0int
        } else {
            1int
        }),
        views(post.recents@).to_set() == views(pre.recents@).to_set().insert(path),
{
    let old_list = views(pre.recents@);
    let rest = old_list.filter(differs_from(path));
    let new_list = views(post.recents@);
    assert(new_list == seq![path] + rest);
    lemma_filter_keeps_distinct(old_list, differs_from(path));
    lemma_filter_out_one_len(old_list, path);
    assert forall|i: int, j: int| 0 <= i < j < new_list.len() implies new_list[i] != new_list[j] by {
        if i == 0 {
            assert(new_list[j] == rest[j - 1]);
            assert(rest.contains(rest[j - 1]));
            lemma_filter_membership(old_list, differs_from(path), rest[j - 1]);
        } else {
            assert(new_list[i] == rest[i - 1] && new_list[j] == rest[j - 1]);
        }
    }
    assert forall|y: Seq<char>| new_list.contains(y) <==> old_list.to_set().insert(path).contains(y) by {
        lemma_filter_membership(old_list, differs_from(path), y);
        if new_list.contains(y) && y != path {
            let k = choose|k: int| 0 <= k < new_list.len() && new_list[k] == y;
            assert(k > 0);
            assert(rest[k - 1] == y);
        }
        if rest.contains(y) {
            let k = choose|k: int| 0 <= k < rest.len() && rest[k] == y;
            assert(new_list[k + 1] == y);
        }
        if y == path {
            assert(new_list[0] == path);
        }
    }
    assert(new_list.to_set() =~= old_list.to_set().insert(path));
}

/// The pinned and recent sections never list the same project, and together they list
/// exactly the pinned or recent projects that the query matches.
pub proof fn law_shown_lists_disjoint_and_cover(app: App, p: Seq<char>)
    ensures
        !(app.shown_pinned().contains(p) && app.shown_recents().contains(p)),
        app.shown_pinned().contains(p) || app.shown_recents().contains(p) <==> fuzzy_matches(app.query@, p) && (
        views(app.pinned@).contains(p) || views(app.recents@).contains(p)),
{
    lemma_filter_membership(views(app.pinned@), matching(app.query@), p);
    lemma_filter_membership(views(app.recents@), matching_unpinned(app.query@, views(app.pinned@)), p);
}

/// The add action is listed exactly when the query is empty or fuzzy-matches its label
/// "add project".
pub proof fn law_add_action_listed(app: App)
    ensures
        app.query@.len() == 0 ==> app.shows_add_action(),
        fuzzy_matches(app.query@, "add project"@) ==> app.shows_add_action(),
        app.shows_add_action() ==> app.query@.len() == 0 || fuzzy_matches(app.query@, "add project"@),
{
}

/// Enter with nothing selected acts on the first row whenever the search list has a
/// row, whatever the query: on the add action it enters add mode, on a first project
/// it opens that project; and unless a terminal open is already queued, something
/// happens.
pub proof fn law_enter_without_selection_acts_on_first_row(
    pre: App,
    post: App,
    eff: KeyEffect,
    suggestions: Seq<Seq<char>>,
    home: Seq<char>,
)
    requires
        pre.mode == Mode::Search,
        pre.selected_idx is None,
        pre.search_count() > 0,
        activated(pre, post, eff, suggestions, home),
    ensures
        pre.search_slot(0) is AddAction ==> entered_add_mode(pre, post),
        pre.search_slot(0) matches Slot::Pinned(p) ==> opened(pre, post, p, eff is RecentsChanged),
        pre.search_slot(0) matches Slot::Recent(p) ==> opened(pre, post, p, eff is RecentsChanged),
        !(pre.search_slot(0) is Empty),
        !has_open_request(pre.pending_actions@) ==> eff is RecentsChanged || (entered_add_mode(pre, post)
            && post.mode != pre.mode),
{
    assert(pre.target_row(pre.selectable(suggestions.len())) == Some(0int));
}

} // verus!
