//! The lightweight front end's model: three lists of rows, the snapshot of
//! the active tab, the rows a query selects, a selection and a keyboard
//! cursor, and a bounded log of `brew` output.
use crate::brew::{pkg_views, Pkg, PkgView};
use crate::rank::fold;
use crate::rows::{arrow_cursor, next_cursor, position_view, progressive, progressive_text, rank_rows, row_scores, searchable};
use crate::search::index::ranked_positions;
use crate::order::{lex, lex_sign, then};
use crate::text::{chars_of, concat, count_text, digits, from_chars, join_with, joined_with, owned};
use crate::ascii::fold_bytes;
use crate::ui::messages::{control, is_control};
use vstd::prelude::*;
use vstd::utf8::encode_utf8;

verus! {

/// The views of the front end.
#[derive(Clone, Copy, Debug, PartialEq, Eq, Structural)]
pub enum Tab {
    Outdated,
    Installed,
    Browse,
}

/// The last `/`-separated part of a name (a tap-qualified name's short
/// name).
pub open spec fn short_name(name: Seq<char>) -> Seq<char>
    decreases name.len(),
{
    if name.len() == 0 || name.last() == '/' {
        Seq::empty()
    } else {
        short_name(name.drop_last()).push(name.last())
    }
}

/// The last catalog row named `name`.
pub open spec fn catalog_entry(catalog: Seq<PkgView>, name: Seq<char>) -> Option<PkgView>
    decreases catalog.len(),
{
    if catalog.len() == 0 {
        None
    } else if catalog.last().name == name {
        Some(catalog.last())
    } else {
        catalog_entry(catalog.drop_last(), name)
    }
}

/// Whether some row of `rows` has this name.
pub open spec fn named_in(rows: Seq<PkgView>, name: Seq<char>) -> bool {
    exists|i: int| 0 <= i < rows.len() && #[trigger] rows[i].name == name
}

/// A row as the active tab shows it: on Installed it is marked outdated
/// when Homebrew reports it so, elsewhere the mark is noise and cleared;
/// outside Browse a row without a description borrows the catalog's.
pub open spec fn snapshot_row(tab: Tab, p: PkgView, outdated: Seq<PkgView>, catalog: Seq<PkgView>) -> PkgView {
    let marked = PkgView { outdated: tab == Tab::Installed && named_in(outdated, p.name), ..p };
    if tab != Tab::Browse && catalog.len() > 0 && p.desc.len() == 0 {
        match catalog_entry(catalog, short_name(p.name)) {
            Some(c) => PkgView { desc: c.desc, desc_lc: c.desc_lc, ..marked },
            None => marked,
        }
    } else {
        marked
    }
}

/// The rows a tab lists.
pub open spec fn tab_rows(tab: Tab, installed: Seq<PkgView>, catalog: Seq<PkgView>, outdated: Seq<PkgView>) -> Seq<PkgView> {
    match tab {
        Tab::Outdated => outdated,
        Tab::Installed => installed,
        Tab::Browse => catalog,
    }
}

/// The snapshot of a tab.
pub open spec fn snapshot_of(tab: Tab, installed: Seq<PkgView>, catalog: Seq<PkgView>, outdated: Seq<PkgView>) -> Seq<PkgView> {
    tab_rows(tab, installed, catalog, outdated).map_values(
        |p: PkgView| snapshot_row(tab, p, outdated, catalog),
    )
}

/// How many log lines trigger trimming, and how many are kept then.
pub const LOG_LIMIT: usize = 4000;

pub const LOG_KEEP: usize = 2000;

/// `log` after `line` is appended: past the limit, only the newest
/// `LOG_KEEP` lines are kept.
pub open spec fn log_push(log: Seq<Seq<char>>, line: Seq<char>) -> Seq<Seq<char>> {
    let grown = log.push(line);
    if grown.len() > LOG_LIMIT {
        grown.skip(grown.len() - LOG_KEEP)
    } else {
        grown
    }
}

/// What the front end shows.
pub struct BrowserView {
    pub tab: Tab,
    pub installed: Seq<PkgView>,
    pub catalog: Seq<PkgView>,
    pub outdated: Seq<PkgView>,
    pub snapshot: Seq<PkgView>,
    pub rows: Seq<int>,
    pub query: Seq<char>,
    pub selected: Set<u32>,
    pub cursor: Option<int>,
    pub log: Seq<Seq<char>>,
    pub log_open: bool,
    pub busy: bool,
    pub status: Seq<char>,
}

/// The lightweight front end's state.
pub struct Browser {
    tab: Tab,
    installed: Vec<Pkg>,
    catalog: Vec<Pkg>,
    outdated: Vec<Pkg>,
    snapshot: Vec<Pkg>,
    rows: Vec<u32>,
    query: String,
    selected: Vec<u32>,
    cursor: Option<usize>,
    log: Vec<String>,
    log_open: bool,
    busy: bool,
    status: String,
}

/// Rows are searchable when their folded buffers fit their text.
pub open spec fn all_searchable(s: Seq<PkgView>) -> bool {
    forall|i: int| 0 <= i < s.len() ==> searchable(#[trigger] s[i])
}

impl View for Browser {
    type V = BrowserView;

    closed spec fn view(&self) -> BrowserView {
        BrowserView {
            tab: self.tab,
            installed: pkg_views(self.installed@),
            catalog: pkg_views(self.catalog@),
            outdated: pkg_views(self.outdated@),
            snapshot: pkg_views(self.snapshot@),
            rows: self.rows@.map_values(|r: u32| r as int),
            query: self.query@,
            selected: self.selected@.to_set(),
            cursor: position_view(self.cursor),
            log: self.log@.map_values(|l: String| l@),
            log_open: self.log_open,
            busy: self.busy,
            status: self.status@,
        }
    }
}

impl Browser {
    /// Every list fits the row indices and can be searched, the log is
    /// bounded, and the cursor points into the rows.
    pub closed spec fn wf(&self) -> bool {
        &&& self.installed@.len() <= u32::MAX
        &&& self.catalog@.len() <= u32::MAX
        &&& self.outdated@.len() <= u32::MAX
        &&& all_searchable(pkg_views(self.installed@))
        &&& all_searchable(pkg_views(self.catalog@))
        &&& all_searchable(pkg_views(self.outdated@))
        &&& all_searchable(pkg_views(self.snapshot@))
        &&& self.snapshot@.len() <= u32::MAX
        &&& self.log@.len() <= LOG_LIMIT
        &&& self.selected@.no_duplicates()
        &&& (self.cursor matches Some(c) ==> c < self.rows@.len())
        &&& forall|i: int| 0 <= i < self.rows@.len() ==> self.rows@[i] < self.snapshot@.len()
    }

    pub fn new() -> (r: Browser)
        ensures
            r.wf(),
            r@.tab == Tab::Outdated,
            r@.installed.len() == 0,
            r@.catalog.len() == 0,
            r@.outdated.len() == 0,
            r@.snapshot.len() == 0,
            r@.rows.len() == 0,
            r@.query.len() == 0,
            r@.selected.is_empty(),
            r@.cursor is None,
            r@.log.len() == 0,
            !r@.log_open,
            !r@.busy,
            r@.status == "Loading"@,
    {
        let r = Browser {
            log_open: false,
            tab: Tab::Outdated,
            installed: Vec::new(),
            catalog: Vec::new(),
            outdated: Vec::new(),
            snapshot: Vec::new(),
            rows: Vec::new(),
            query: String::new(),
            selected: Vec::new(),
            cursor: None,
            log: Vec::new(),
            busy: false,
            status: owned("Loading"),
        };
        assert(r@.selected =~= Set::<u32>::empty());
        r
    }

    /// Append a line to the log; past the limit, the oldest lines go.
    pub fn push_log(&mut self, line: String)
        requires
            old(self).wf(),
        ensures
            final(self).wf(),
            final(self)@ == (BrowserView { log: log_push(old(self)@.log, line@), ..old(self)@ }),
    {
        let ghost before = self.log@.map_values(|l: String| l@);
        self.log.push(line);
        assert(self.log@.map_values(|l: String| l@) =~= before.push(line@));
        if self.log.len() > LOG_LIMIT {
            let drop = self.log.len() - LOG_KEEP;
            let ghost grown = self.log@.map_values(|l: String| l@);
            let mut kept: Vec<String> = Vec::new();
            let mut i = drop;
            while i < self.log.len()
                invariant
                    drop <= i <= self.log.len(),
                    grown == self.log@.map_values(|l: String| l@),
                    kept@.map_values(|l: String| l@) =~= grown.subrange(drop as int, i as int),
                decreases self.log.len() - i,
            {
                let ghost prefix = kept@.map_values(|l: String| l@);
                kept.push(self.log[i].clone());
                assert(grown[i as int] == self.log@[i as int]@);
                assert(kept@.map_values(|l: String| l@) =~= prefix.push(grown[i as int]));
                i = i + 1;
            }
            self.log = kept;
            assert(self.log@.map_values(|l: String| l@) =~= grown.skip(grown.len() - LOG_KEEP));
        }
    }
}

// ---- building the snapshot ------------------------------------------------------

fn copy_bytes(v: &Vec<u8>) -> (r: Vec<u8>)
    ensures
        r@ == v@,
{
    let r = v.clone();
    assert(r@ =~= v@) by {
        assert forall|i: int| 0 <= i < v@.len() implies r@[i] == v@[i] by {
            assert(cloned::<u8>(v[i], r[i]));
        }
    }
    r
}

/// A row with `outdated` and, when given, the description taken from
/// another row.
fn copy_row(p: &Pkg, outdated: bool, desc_from: Option<&Pkg>) -> (r: Pkg)
    ensures
        r@ == (match desc_from {
            Some(c) => PkgView { outdated, desc: c@.desc, desc_lc: c@.desc_lc, ..p@ },
            None => PkgView { outdated, ..p@ },
        }),
{
    let (desc, desc_lc) = match desc_from {
        Some(c) => (c.desc.clone(), copy_bytes(&c.desc_lc)),
        None => (p.desc.clone(), copy_bytes(&p.desc_lc)),
    };
    Pkg {
        name: p.name.clone(),
        installed: p.installed.clone(),
        latest: p.latest.clone(),
        desc,
        cask: p.cask,
        outdated,
        pinned: p.pinned,
        name_lc: copy_bytes(&p.name_lc),
        desc_lc,
    }
}

fn same_chars(a: &Vec<char>, b: &Vec<char>) -> (r: bool)
    ensures
        r == (a@ == b@),
{
    if a.len() != b.len() {
        return false;
    }
    let mut i: usize = 0;
    while i < a.len()
        invariant
            i <= a.len(),
            a.len() == b.len(),
            forall|k: int| 0 <= k < i ==> a@[k] == b@[k],
        decreases a.len() - i,
    {
        if a[i] != b[i] {
            return false;
        }
        i = i + 1;
    }
    assert(a@ =~= b@);
    true
}

/// The names of rows, as characters.
fn row_names(rows: &Vec<Pkg>) -> (r: Vec<Vec<char>>)
    ensures
        r@.len() == rows@.len(),
        forall|i: int| 0 <= i < rows@.len() ==> (#[trigger] r@[i])@ == rows@[i].name@,
{
    let mut names: Vec<Vec<char>> = Vec::new();
    let mut i: usize = 0;
    while i < rows.len()
        invariant
            i <= rows.len(),
            names@.len() == i,
            forall|k: int| 0 <= k < i ==> (#[trigger] names@[k])@ == rows@[k].name@,
        decreases rows.len() - i,
    {
        names.push(chars_of(rows[i].name.as_str()));
        i = i + 1;
    }
    names
}

/// The last `/`-separated part of a name.
fn short_of(name: &Vec<char>) -> (r: Vec<char>)
    ensures
        r@ == short_name(name@),
{
    let n = name.len();
    let mut i = n;
    assert(name@.subrange(n as int, n as int) =~= Seq::<char>::empty());
    assert(name@.take(n as int) =~= name@);
    while i > 0 && name[i - 1] != '/'
        invariant
            i <= n,
            n == name.len(),
            short_name(name@) == short_name(name@.take(i as int)) + name@.subrange(i as int, n as int),
        decreases i,
    {
        assert(name@.take(i as int).drop_last() =~= name@.take(i - 1));
        assert(name@.take(i as int).last() == name@[i - 1]);
        assert(name@.subrange(i - 1, n as int) =~= seq![name@[i - 1]] + name@.subrange(i as int, n as int));
        i = i - 1;
    }
    if i > 0 {
        assert(name@.take(i as int).last() == '/');
    } else {
        assert(name@.take(0) =~= Seq::<char>::empty());
    }
    let mut r: Vec<char> = Vec::new();
    let mut k = i;
    while k < n
        invariant
            i <= k <= n,
            n == name.len(),
            r@ =~= name@.subrange(i as int, k as int),
        decreases n - k,
    {
        r.push(name[k]);
        k = k + 1;
    }
    r
}

/// Where the last row named `name` is among `names`.
fn last_named(names: &Vec<Vec<char>>, rows: Ghost<Seq<PkgView>>, name: &Vec<char>) -> (r: Option<usize>)
    requires
        names@.len() == rows@.len(),
        forall|i: int| 0 <= i < rows@.len() ==> (#[trigger] names@[i])@ == rows@[i].name,
    ensures
        match r {
            Some(i) => i < rows@.len() && catalog_entry(rows@, name@) == Some(rows@[i as int]),
            None => catalog_entry(rows@, name@) is None,
        },
{
    let mut i = names.len();
    assert(rows@.take(i as int) =~= rows@);
    while i > 0
        invariant
            i <= names@.len(),
            names@.len() == rows@.len(),
            forall|k: int| 0 <= k < rows@.len() ==> (#[trigger] names@[k])@ == rows@[k].name,
            catalog_entry(rows@, name@) == catalog_entry(rows@.take(i as int), name@),
        decreases i,
    {
        assert(rows@.take(i as int).drop_last() =~= rows@.take(i - 1));
        assert(rows@.take(i as int).last() == rows@[i - 1]);
        if same_chars(&names[i - 1], name) {
            return Some(i - 1);
        }
        i = i - 1;
    }
    assert(rows@.take(0) =~= Seq::<PkgView>::empty());
    None
}

/// Whether some row among `names` has this name.
fn any_named(names: &Vec<Vec<char>>, rows: Ghost<Seq<PkgView>>, name: &Vec<char>) -> (r: bool)
    requires
        names@.len() == rows@.len(),
        forall|i: int| 0 <= i < rows@.len() ==> (#[trigger] names@[i])@ == rows@[i].name,
    ensures
        r == named_in(rows@, name@),
{
    let mut i: usize = 0;
    while i < names.len()
        invariant
            i <= names@.len(),
            names@.len() == rows@.len(),
            forall|k: int| 0 <= k < rows@.len() ==> (#[trigger] names@[k])@ == rows@[k].name,
            forall|k: int| 0 <= k < i ==> rows@[k].name != name@,
        decreases names.len() - i,
    {
        if same_chars(&names[i], name) {
            return true;
        }
        i = i + 1;
    }
    false
}

/// The snapshot of the active tab.
pub fn snapshot_rows(tab: Tab, installed: &Vec<Pkg>, catalog: &Vec<Pkg>, outdated: &Vec<Pkg>) -> (r: Vec<Pkg>)
    ensures
        pkg_views(r@) == snapshot_of(tab, pkg_views(installed@), pkg_views(catalog@), pkg_views(outdated@)),
{
    let ghost cat = pkg_views(catalog@);
    let ghost out = pkg_views(outdated@);
    let source = match tab {
        Tab::Outdated => outdated,
        Tab::Installed => installed,
        Tab::Browse => catalog,
    };
    let ghost src = pkg_views(source@);
    assert(src == tab_rows(tab, pkg_views(installed@), cat, out));
    let catalog_names = row_names(catalog);
    let outdated_names = row_names(outdated);
    assert forall|i: int| 0 <= i < cat.len() implies (#[trigger] catalog_names@[i])@ == cat[i].name by {}
    assert forall|i: int| 0 <= i < out.len() implies (#[trigger] outdated_names@[i])@ == out[i].name by {}
    let graft = tab != Tab::Browse && catalog.len() > 0;
    let mut snap: Vec<Pkg> = Vec::new();
    let mut i: usize = 0;
    while i < source.len()
        invariant
            i <= source.len(),
            src == pkg_views(source@),
            cat == pkg_views(catalog@),
            out == pkg_views(outdated@),
            graft == (tab != Tab::Browse && cat.len() > 0),
            catalog_names@.len() == cat.len(),
            forall|k: int| 0 <= k < cat.len() ==> (#[trigger] catalog_names@[k])@ == cat[k].name,
            outdated_names@.len() == out.len(),
            forall|k: int| 0 <= k < out.len() ==> (#[trigger] outdated_names@[k])@ == out[k].name,
            pkg_views(snap@) =~= src.take(i as int).map_values(
                |p: PkgView| snapshot_row(tab, p, out, cat),
            ),
        decreases source.len() - i,
    {
        let p = &source[i];
        assert(src[i as int] == p@);
        let name = chars_of(p.name.as_str());
        let marked = tab == Tab::Installed && any_named(&outdated_names, Ghost(out), &name);
        let empty_desc = chars_of(p.desc.as_str()).len() == 0;
        let row = if graft && empty_desc {
            let short = short_of(&name);
            match last_named(&catalog_names, Ghost(cat), &short) {
                Some(j) => {
                    assert(cat[j as int] == catalog@[j as int]@);
                    copy_row(p, marked, Some(&catalog[j]))
                },
                None => copy_row(p, marked, None),
            }
        } else {
            copy_row(p, marked, None)
        };
        let ghost before = pkg_views(snap@);
        snap.push(row);
        assert(pkg_views(snap@) =~= before.push(snapshot_row(tab, src[i as int], out, cat)));
        assert(src.take(i + 1).map_values(|p: PkgView| snapshot_row(tab, p, out, cat)) =~= src.take(
            i as int,
        ).map_values(|p: PkgView| snapshot_row(tab, p, out, cat)).push(
            snapshot_row(tab, src[i as int], out, cat),
        ));
        i = i + 1;
    }
    assert(src.take(i as int) =~= src);
    snap
}

/// A catalog row found by name is one of the catalog's rows.
proof fn lemma_catalog_entry_in(catalog: Seq<PkgView>, name: Seq<char>)
    ensures
        catalog_entry(catalog, name) matches Some(c) ==> exists|i: int| 0 <= i < catalog.len() && catalog[i] == c,
    decreases catalog.len(),
{
    if catalog.len() > 0 && catalog.last().name != name {
        lemma_catalog_entry_in(catalog.drop_last(), name);
        if let Some(c) = catalog_entry(catalog, name) {
            let i = choose|i: int| 0 <= i < catalog.drop_last().len() && catalog.drop_last()[i] == c;
            assert(catalog[i] == c);
        }
    } else if catalog.len() > 0 {
        assert(catalog[catalog.len() - 1] == catalog.last());
    }
}

/// Snapshots of searchable rows are searchable.
proof fn lemma_snapshot_searchable(tab: Tab, installed: Seq<PkgView>, catalog: Seq<PkgView>, outdated: Seq<PkgView>)
    requires
        all_searchable(installed),
        all_searchable(catalog),
        all_searchable(outdated),
    ensures
        all_searchable(snapshot_of(tab, installed, catalog, outdated)),
{
    let src = tab_rows(tab, installed, catalog, outdated);
    let snap = snapshot_of(tab, installed, catalog, outdated);
    assert forall|i: int| 0 <= i < snap.len() implies searchable(#[trigger] snap[i]) by {
        let p = src[i];
        assert(searchable(p));
        lemma_catalog_entry_in(catalog, short_name(p.name));
    }
}

/// `rows` are what a query shows of a snapshot: every row for an empty
/// needle, else the matching rows ranked best first, ties in order.
pub open spec fn shows_rows(rows: Seq<int>, needle: Seq<u8>, snapshot: Seq<PkgView>) -> bool {
    if needle.len() == 0 {
        rows == Seq::new(snapshot.len(), |i: int| i)
    } else {
        ranked_positions(rows, row_scores(needle, snapshot))
    }
}

impl Browser {
    /// Rank the snapshot against the query; the cursor is forgotten, since
    /// the rows now stand for other packages.
    fn refilter(&mut self)
        requires
            old(self).wf(),
        ensures
            final(self).wf(),
            final(self)@ == (BrowserView {
                rows: final(self)@.rows,
                cursor: None,
                ..old(self)@
            }),
            shows_rows(final(self)@.rows, fold_bytes(encode_utf8(old(self)@.query)), old(self)@.snapshot),
    {
        let needle = fold(self.query.as_str());
        proof {
            assert forall|i: int| 0 <= i < self.snapshot@.len() implies searchable(
                #[trigger] self.snapshot@[i]@,
            ) by {
                assert(pkg_views(self.snapshot@)[i] == self.snapshot@[i]@);
            }
        }
        let rows = rank_rows(needle.as_slice(), self.snapshot.as_slice());
        proof {
            let n = self.snapshot@.len();
            let r = rows@.map_values(|x: u32| x as int);
            if needle@.len() == 0 {
                assert(r =~= Seq::new(n, |i: int| i));
            } else {
                assert forall|i: int| 0 <= i < rows@.len() implies rows@[i] < n by {
                    assert(r[i] == rows@[i] as int);
                }
            }
        }
        self.rows = rows;
        self.cursor = None;
    }

    /// Rebuild the snapshot of the active tab and rank it; the selection is
    /// cleared.
    fn resnapshot(&mut self)
        requires
            old(self).wf(),
        ensures
            final(self).wf(),
            final(self)@ == (BrowserView {
                snapshot: snapshot_of(old(self)@.tab, old(self)@.installed, old(self)@.catalog, old(self)@.outdated),
                rows: final(self)@.rows,
                selected: Set::empty(),
                cursor: None,
                ..old(self)@
            }),
            shows_rows(final(self)@.rows, fold_bytes(encode_utf8(old(self)@.query)), final(self)@.snapshot),
    {
        let snap = snapshot_rows(self.tab, &self.installed, &self.catalog, &self.outdated);
        proof {
            lemma_snapshot_searchable(self@.tab, self@.installed, self@.catalog, self@.outdated);
        }
        proof {
            let t = self@.tab;
            let src = tab_rows(t, self@.installed, self@.catalog, self@.outdated);
            assert(pkg_views(snap@).len() == src.len());
            assert(src.len() <= u32::MAX);
        }
        self.snapshot = snap;
        self.selected = Vec::new();
        self.rows = Vec::new();
        self.cursor = None;
        assert(self@.selected =~= Set::<u32>::empty());
        self.refilter();
    }

    /// Switch tabs.
    pub fn select_tab(&mut self, tab: Tab)
        requires
            old(self).wf(),
        ensures
            final(self).wf(),
            final(self)@ == (BrowserView {
                tab,
                snapshot: snapshot_of(tab, old(self)@.installed, old(self)@.catalog, old(self)@.outdated),
                rows: final(self)@.rows,
                selected: Set::empty(),
                cursor: None,
                ..old(self)@
            }),
            shows_rows(final(self)@.rows, fold_bytes(encode_utf8(old(self)@.query)), final(self)@.snapshot),
    {
        self.tab = tab;
        self.resnapshot();
    }
}


// ---- the keyboard cursor ------------------------------------------------------

/// The front end after an arrow key: the cursor moves (clamped, entering
/// from the matching end) and the row it lands on is selected, added to the
/// selection when `extend`, replacing it otherwise.
pub open spec fn moved(v: BrowserView, delta: int, extend: bool) -> BrowserView {
    match arrow_cursor(v.cursor, delta, v.rows.len() as int) {
        None => BrowserView { cursor: None, ..v },
        Some(n) => BrowserView {
            cursor: Some(n),
            selected: (if extend {
                v.selected
            } else {
                Set::empty()
            }).insert(v.rows[n] as u32),
            ..v
        },
    }
}

fn holds(v: &Vec<u32>, x: u32) -> (r: bool)
    ensures
        r == v@.contains(x),
{
    let mut i: usize = 0;
    while i < v.len()
        invariant
            i <= v.len(),
            forall|k: int| 0 <= k < i ==> v@[k] != x,
        decreases v.len() - i,
    {
        if v[i] == x {
            return true;
        }
        i = i + 1;
    }
    false
}

impl Browser {
    /// Move the keyboard cursor and select the row it lands on.
    pub fn move_cursor(&mut self, delta: isize, extend: bool)
        requires
            old(self).wf(),
        ensures
            final(self).wf(),
            final(self)@ == moved(old(self)@, delta as int, extend),
    {
        let next = next_cursor(self.cursor, delta, self.rows.len());
        self.cursor = next;
        match next {
            None => {},
            Some(n) => {
                if !extend {
                    self.selected = Vec::new();
                    assert(self.selected@.to_set() =~= Set::<u32>::empty());
                }
                let ghost before = self.selected@.to_set();
                let ghost old_sel = self.selected@;
                let id = self.rows[n];
                if !holds(&self.selected, id) {
                    self.selected.push(id);
                    assert(self.selected@.to_set() =~= before.insert(id)) by {
                        old_sel.lemma_push_to_set_commute(id);
                    }
                } else {
                    assert(before =~= before.insert(id));
                }
            },
        }
    }
}

// ---- what an action acts on -----------------------------------------------------

/// A target of `brew`: a name and whether it is a cask.
pub open spec fn item_of(p: PkgView) -> (Seq<char>, bool) {
    (p.name, p.cask)
}

pub open spec fn items_view(v: Seq<(String, bool)>) -> Seq<(Seq<char>, bool)> {
    v.map_values(|x: (String, bool)| (x.0@, x.1))
}

/// The order of `(String, bool)` pairs: by name as bytes, then formulae
/// before casks.
pub open spec fn item_order(a: (Seq<char>, bool), b: (Seq<char>, bool)) -> int {
    then(
        lex(encode_utf8(a.0), encode_utf8(b.0)),
        if a.1 == b.1 {
            0
        } else if !a.1 {
            -1
        } else {
            1
        },
    )
}

pub open spec fn sorted_items(s: Seq<(Seq<char>, bool)>) -> bool {
    forall|i: int, j: int| 0 <= i < j < s.len() ==> item_order(#[trigger] s[i], #[trigger] s[j]) <= 0
}

/// The snapshot positions an action on the selection acts on: selected,
/// present, and not pinned.
pub open spec fn actionable(selected: Set<u32>, snapshot: Seq<PkgView>) -> Set<int> {
    Set::new(|i: int| 0 <= i < snapshot.len() && selected.contains(i as u32) && !snapshot[i].pinned)
}

/// `items` are the targets of the rows at `positions`, one each, in some
/// order.
pub open spec fn lists_items(items: Seq<(Seq<char>, bool)>, positions: Set<int>, snapshot: Seq<PkgView>) -> bool {
    exists|order: Seq<int>|
        #![trigger order.to_set()]
        order.len() == items.len() && order.no_duplicates() && order.to_set() == positions && forall|k: int|
            0 <= k < items.len() ==> items[k] == item_of(snapshot[#[trigger] order[k]])
}

proof fn lemma_item_order(a: (Seq<char>, bool), b: (Seq<char>, bool), c: (Seq<char>, bool))
    ensures
        item_order(a, b) == -item_order(b, a),
        item_order(a, b) <= 0 && item_order(b, c) <= 0 ==> item_order(a, c) <= 0,
{
    let (x, y, z) = (encode_utf8(a.0), encode_utf8(b.0), encode_utf8(c.0));
    crate::order::lemma_lex(x, y, z);
    crate::order::lemma_lex(y, z, x);
    crate::order::lemma_lex(x, z, y);
    crate::order::lemma_lex(z, x, y);
}

proof fn lemma_insert_set(s: Seq<int>, p: int, x: int)
    requires
        0 <= p <= s.len(),
        s.no_duplicates(),
        !s.contains(x),
    ensures
        s.insert(p, x).no_duplicates(),
        s.insert(p, x).to_set() == s.to_set().insert(x),
{
    let t = s.insert(p, x);
    assert forall|i: int, j: int| 0 <= i < t.len() && 0 <= j < t.len() && i != j implies t[i] != t[j] by {
        if i < p && j > p {
            assert(t[j] == s[j - 1]);
        } else if i > p && j < p {
            assert(t[i] == s[i - 1]);
        } else if i > p && j > p {
            assert(t[i] == s[i - 1] && t[j] == s[j - 1]);
        } else if i == p && j != p {
            if j < p {
                assert(s.contains(t[j]));
            } else {
                assert(t[j] == s[j - 1]);
                assert(s.contains(s[j - 1]));
            }
        } else if j == p && i != p {
            if i < p {
                assert(s.contains(t[i]));
            } else {
                assert(t[i] == s[i - 1]);
                assert(s.contains(s[i - 1]));
            }
        }
    }
    assert forall|v: int| t.to_set().contains(v) == s.to_set().insert(x).contains(v) by {
        if t.contains(v) {
            let i = choose|i: int| 0 <= i < t.len() && t[i] == v;
            if i < p {
                assert(s[i] == v);
            } else if i > p {
                assert(s[i - 1] == v);
            }
        }
        if s.contains(v) {
            let i = choose|i: int| 0 <= i < s.len() && s[i] == v;
            if i < p {
                assert(t[i] == v);
            } else {
                assert(t[i + 1] == v);
            }
        }
        if v == x {
            assert(t[p] == x);
        }
    }
    assert(t.to_set() =~= s.to_set().insert(x));
}

fn item_sign(a: &(String, bool), b: &(String, bool)) -> (r: i8)
    ensures
        r == item_order((a.0@, a.1), (b.0@, b.1)),
{
    let c = lex_sign(a.0.as_str().as_bytes(), b.0.as_str().as_bytes());
    if c != 0 {
        c
    } else if a.1 == b.1 {
        0
    } else if !a.1 {
        -1
    } else {
        1
    }
}

impl Browser {
    /// The targets of the primary action: the selected rows that are not
    /// pinned, as (name, is cask), sorted.
    pub fn selected_items(&self) -> (r: Vec<(String, bool)>)
        requires
            self.wf(),
        ensures
            sorted_items(items_view(r@)),
            lists_items(items_view(r@), actionable(self@.selected, self@.snapshot), self@.snapshot),
    {
        let ghost snap = self@.snapshot;
        let ghost sel = self.selected@;
        let mut out: Vec<(String, bool)> = Vec::new();
        let ghost mut order: Seq<int> = Seq::empty();
        let mut i: usize = 0;
        while i < self.selected.len()
            invariant
                self.wf(),
                snap == self@.snapshot,
                sel == self.selected@,
                i <= sel.len(),
                order.len() == out@.len(),
                order.no_duplicates(),
                order.to_set() == actionable(sel.take(i as int).to_set(), snap),
                forall|k: int| 0 <= k < out@.len() ==> items_view(out@)[k] == item_of(snap[#[trigger] order[k]]),
                sorted_items(items_view(out@)),
            decreases sel.len() - i,
        {
            let id = self.selected[i];
            proof {
                assert(sel.take(i + 1).to_set() =~= sel.take(i as int).to_set().insert(id)) by {
                    assert(sel.take(i + 1) =~= sel.take(i as int).push(id));
                    sel.take(i as int).lemma_push_to_set_commute(id);
                }
            }
            let pos = id as usize;
            if pos < self.snapshot.len() && !self.snapshot[pos].pinned {
                let p = &self.snapshot[pos];
                assert(snap[pos as int] == p@);
                let item = (p.name.clone(), p.cask);
                let ghost it = (item.0@, item.1);
                let ghost v = items_view(out@);
                let mut at = out.len();
                while at > 0 && item_sign(&out[at - 1], &item) > 0
                    invariant
                        at <= out@.len(),
                        v == items_view(out@),
                        it == (item.0@, item.1),
                        forall|k: int| at <= k < v.len() ==> item_order(#[trigger] v[k], it) > 0,
                    decreases at,
                {
                    assert(v[at - 1] == (out@[at - 1].0@, out@[at - 1].1));
                    at = at - 1;
                }
                proof {
                    if at > 0 {
                        assert(v[at - 1] == (out@[at - 1].0@, out@[at - 1].1));
                        assert forall|k: int| 0 <= k < at implies item_order(#[trigger] v[k], it) <= 0 by {
                            if k < at - 1 {
                                lemma_item_order(v[k], v[at - 1], it);
                            }
                        }
                    }
                    assert(!order.contains(pos as int)) by {
                        if order.contains(pos as int) {
                            assert(order.to_set().contains(pos as int));
                            assert(sel.take(i as int).to_set().contains(id));
                            let k = choose|k: int| 0 <= k < i && sel.take(i as int)[k] == id;
                            assert(sel[k] == sel[i as int]);
                        }
                    }
                    lemma_insert_set(order, at as int, pos as int);
                }
                out.insert(at, item);
                proof {
                    let w = items_view(out@);
                    let old_order = order;
                    order = order.insert(at as int, pos as int);
                    assert(w =~= v.insert(at as int, it));
                    assert forall|a: int, b: int| 0 <= a < b < w.len() implies item_order(#[trigger] w[a], #[trigger] w[b]) <= 0 by {
                        if b < at {
                        } else if a < at && b == at {
                        } else if a < at && b > at {
                            assert(w[b] == v[b - 1]);
                        } else if a == at {
                            assert(w[b] == v[b - 1]);
                            lemma_item_order(it, v[b - 1], it);
                        } else {
                            assert(w[a] == v[a - 1] && w[b] == v[b - 1]);
                        }
                    }
                    assert forall|k: int| 0 <= k < w.len() implies w[k] == item_of(snap[#[trigger] order[k]]) by {
                        if k < at {
                        } else if k == at {
                        } else {
                            assert(order[k] == old_order[k - 1]);
                        }
                    }
                    assert(actionable(sel.take(i + 1).to_set(), snap) =~= actionable(sel.take(i as int).to_set(), snap).insert(pos as int));
                }
            } else {
                proof {
                    assert(actionable(sel.take(i + 1).to_set(), snap) =~= actionable(sel.take(i as int).to_set(), snap));
                }
            }
            i = i + 1;
        }
        proof {
            assert(sel.take(i as int) =~= sel);
            assert(sel.to_set() == self@.selected);
        }
        out
    }

    /// The targets of upgrading everything: the outdated packages that are
    /// not pinned, in order.
    pub fn all_outdated_items(&self) -> (r: Vec<(String, bool)>)
        ensures
            items_view(r@) == self@.outdated.filter(|p: PkgView| !p.pinned).map_values(|p: PkgView| item_of(p)),
    {
        let ghost s = self@.outdated;
        let mut out: Vec<(String, bool)> = Vec::new();
        let mut i: usize = 0;
        while i < self.outdated.len()
            invariant
                i <= self.outdated@.len(),
                s == pkg_views(self.outdated@),
                items_view(out@) == s.take(i as int).filter(|p: PkgView| !p.pinned).map_values(
                    |p: PkgView| item_of(p),
                ),
            decreases self.outdated.len() - i,
        {
            let ghost before = items_view(out@);
            assert(s.take(i + 1).drop_last() =~= s.take(i as int));
            assert(s.take(i + 1).last() == s[i as int]);
            assert(s[i as int] == self.outdated@[i as int]@);
            proof {
                reveal(Seq::filter);
            }
            let p = &self.outdated[i];
            if !p.pinned {
                out.push((p.name.clone(), p.cask));
                assert(items_view(out@) =~= before.push(item_of(s[i as int])));
                assert(s.take(i + 1).filter(|p: PkgView| !p.pinned) == s.take(i as int).filter(
                    |p: PkgView| !p.pinned,
                ).push(s[i as int]));
                assert(items_view(out@) =~= s.take(i + 1).filter(|p: PkgView| !p.pinned).map_values(
                    |p: PkgView| item_of(p),
                ));
            }
            i = i + 1;
        }
        assert(s.take(i as int) =~= s);
        out
    }
}


// ---- keys -------------------------------------------------------------------------

/// The modifier keys held during a key press.
#[derive(Clone, Copy, Debug, PartialEq, Eq, Structural)]
pub struct KeyModifiers {
    pub platform: bool,
    pub control: bool,
    pub function: bool,
    pub shift: bool,
}

/// Whether some character of `s` is a control code.
pub open spec fn has_control(s: Seq<char>) -> bool {
    exists|i: int| 0 <= i < s.len() && is_control(#[trigger] s[i])
}

pub open spec fn option_text(t: Option<&str>) -> Option<Seq<char>> {
    match t {
        Some(t) => Some(t@),
        None => None,
    }
}

/// Whether a key press goes to the action system: a shortcut.
pub open spec fn is_shortcut(m: KeyModifiers) -> bool {
    m.platform || m.control || m.function
}

/// The cursor step of an arrow key (with whether shift extends the
/// selection); none for other keys and for shortcuts.
pub open spec fn arrow_step(key: Seq<char>, m: KeyModifiers) -> Option<(int, bool)> {
    if is_shortcut(m) {
        None
    } else if key == "up"@ {
        Some((-1, m.shift))
    } else if key == "down"@ {
        Some((1, m.shift))
    } else {
        None
    }
}

/// The query after an editing key: Backspace drops the last character,
/// Escape empties it, a key that types printable text appends it. None for
/// shortcuts, arrows, Enter, and keys that type nothing printable. `key`
/// names the physical key, `typed` is the text it types, if any.
pub open spec fn edited_query(key: Seq<char>, typed: Option<Seq<char>>, m: KeyModifiers, query: Seq<char>) -> Option<
    Seq<char>,
> {
    if is_shortcut(m) || key == "up"@ || key == "down"@ {
        None
    } else if key == "backspace"@ {
        Some(
            if query.len() > 0 {
                query.drop_last()
            } else {
                query
            },
        )
    } else if key == "escape"@ {
        Some(Seq::empty())
    } else if key == "enter"@ {
        None
    } else {
        match typed {
            None => None,
            Some(t) => if has_control(t) {
                None
            } else {
                Some(query + t)
            },
        }
    }
}

fn any_control(s: &str) -> (r: bool)
    ensures
        r == has_control(s@),
{
    let cs = chars_of(s);
    let mut i: usize = 0;
    while i < cs.len()
        invariant
            i <= cs.len(),
            cs@ == s@,
            forall|k: int| 0 <= k < i ==> !is_control(cs@[k]),
        decreases cs.len() - i,
    {
        if control(cs[i]) {
            return true;
        }
        i = i + 1;
    }
    false
}

impl Browser {
    /// Set the query and rank the snapshot against it; the selection is
    /// cleared.
    fn set_query(&mut self, query: String)
        requires
            old(self).wf(),
        ensures
            final(self).wf(),
            final(self)@ == (BrowserView {
                query: query@,
                rows: final(self)@.rows,
                selected: Set::empty(),
                cursor: None,
                ..old(self)@
            }),
            shows_rows(final(self)@.rows, fold_bytes(encode_utf8(query@)), old(self)@.snapshot),
    {
        self.query = query;
        self.refilter();
        self.selected = Vec::new();
        assert(self@.selected =~= Set::<u32>::empty());
    }

    /// Handle a key press.
    pub fn key_down(&mut self, key: &str, typed: Option<&str>, modifiers: KeyModifiers)
        requires
            old(self).wf(),
        ensures
            final(self).wf(),
            match arrow_step(key@, modifiers) {
                Some((delta, extend)) => final(self)@ == moved(old(self)@, delta, extend),
                None => match edited_query(key@, option_text(typed), modifiers, old(self)@.query) {
                    Some(q) => final(self)@ == (BrowserView {
                        query: q,
                        rows: final(self)@.rows,
                        selected: Set::empty(),
                        cursor: None,
                        ..old(self)@
                    }) && shows_rows(final(self)@.rows, fold_bytes(encode_utf8(q)), old(self)@.snapshot),
                    None => final(self)@ == old(self)@,
                },
            },
    {
        if modifiers.platform || modifiers.control || modifiers.function {
            return;
        }
        if crate::text::text_eq(key, "up") {
            self.move_cursor(-1, modifiers.shift);
            return;
        }
        if crate::text::text_eq(key, "down") {
            self.move_cursor(1, modifiers.shift);
            return;
        }
        if crate::text::text_eq(key, "backspace") {
            let mut cs = chars_of(self.query.as_str());
            if cs.len() > 0 {
                cs.pop();
            }
            self.set_query(from_chars(cs.as_slice()));
            return;
        }
        if crate::text::text_eq(key, "escape") {
            self.set_query(String::new());
            return;
        }
        if crate::text::text_eq(key, "enter") {
            return;
        }
        match typed {
            None => {},
            Some(t) => {
                if !any_control(t) {
                    let q = concat(self.query.as_str(), t);
                    self.set_query(q);
                }
            },
        }
    }
}

// ---- scanning and running -----------------------------------------------------------

/// `v` with new lists, log, busy flag and status; the snapshot rebuilt for
/// its tab, the selection and cursor dropped and `rows` shown.
pub open spec fn reloaded(
    v: BrowserView,
    installed: Seq<PkgView>,
    catalog: Seq<PkgView>,
    outdated: Seq<PkgView>,
    log: Seq<Seq<char>>,
    busy: bool,
    status: Seq<char>,
    rows: Seq<int>,
) -> BrowserView {
    BrowserView {
        installed,
        catalog,
        outdated,
        log,
        busy,
        status,
        snapshot: snapshot_of(v.tab, installed, catalog, outdated),
        rows,
        selected: Set::empty(),
        cursor: None,
        ..v
    }
}

/// Rows that can stand in the front end's lists.
pub open spec fn listable(rows: Seq<Pkg>) -> bool {
    rows.len() <= u32::MAX && all_searchable(pkg_views(rows))
}

/// "" for one, "s" otherwise.
pub open spec fn plural(n: nat) -> Seq<char> {
    if n == 1 {
        Seq::empty()
    } else {
        "s"@
    }
}

/// The status line while `count` packages are being worked on.
pub open spec fn run_status(verb: Seq<char>, count: nat) -> Seq<char> {
    progressive_text(verb) + " "@ + digits(count) + " package"@ + plural(count)
}

/// The log line that closes a run.
pub open spec fn run_summary(verb: Seq<char>, count: nat, result: Result<(), Seq<char>>) -> Seq<char> {
    match result {
        Ok(()) => "Finished. "@ + digits(count) + " package"@ + plural(count) + " "@ + verb + "d."@,
        Err(e) => "Failed. "@ + e,
    }
}

pub open spec fn result_text(r: Result<(), String>) -> Result<(), Seq<char>> {
    match r {
        Ok(()) => Ok(()),
        Err(e) => Err(e@),
    }
}

fn plural_of(n: usize) -> (r: &'static str)
    ensures
        r@ == plural(n as nat),
{
    proof {
        reveal_strlit("s");
        reveal_strlit("");
    }
    if n == 1 {
        ""
    } else {
        "s"
    }
}

/// The log line that announces one `brew` invocation.
pub fn command_line(args: &Vec<String>) -> (r: String)
    ensures
        r@ == "$ brew "@ + joined_with(args@.map_values(|s: String| s@), " "@),
{
    let joined = join_with(args, " ");
    concat("$ brew ", joined.as_str())
}

/// How a run of several invocations ends: failed, with every reason joined
/// by "; ", if any invocation failed.
pub fn run_result(failures: &Vec<String>) -> (r: Result<(), String>)
    ensures
        failures@.len() == 0 ==> r is Ok,
        failures@.len() > 0 ==> (r matches Err(e) && e@ == joined_with(failures@.map_values(|s: String| s@), "; "@)),
{
    if failures.len() == 0 {
        Ok(())
    } else {
        Err(join_with(failures, "; "))
    }
}

impl Browser {
    /// Start a scan. Refused while busy.
    pub fn begin_refresh(&mut self) -> (started: bool)
        requires
            old(self).wf(),
        ensures
            final(self).wf(),
            started == !old(self)@.busy,
            started ==> final(self)@ == (BrowserView { busy: true, status: "Scanning…"@, ..old(self)@ }),
            !started ==> final(self)@ == old(self)@,
    {
        if self.busy {
            return false;
        }
        self.busy = true;
        self.status = owned("Scanning…");
        true
    }

    /// The installed scan and the catalog arrived: a catalog that could not
    /// be loaded leaves the old one and says why in the log.
    pub fn scanned(&mut self, installed: Vec<Pkg>, catalog: Result<Vec<Pkg>, String>)
        requires
            old(self).wf(),
            listable(installed@),
            catalog matches Ok(c) ==> listable(c@),
        ensures
            final(self).wf(),
            final(self)@ == reloaded(
                old(self)@,
                pkg_views(installed@),
                match catalog {
                    Ok(c) => pkg_views(c@),
                    Err(_) => old(self)@.catalog,
                },
                old(self)@.outdated,
                match catalog {
                    Ok(_) => old(self)@.log,
                    Err(e) => log_push(old(self)@.log, "Couldn't load the catalog. "@ + e@),
                },
                old(self)@.busy,
                "Checking for updates"@,
                final(self)@.rows,
            ),
            shows_rows(final(self)@.rows, fold_bytes(encode_utf8(old(self)@.query)), final(self)@.snapshot),
    {
        self.installed = installed;
        match catalog {
            Ok(c) => self.catalog = c,
            Err(e) => self.push_log(concat("Couldn't load the catalog. ", e.as_str())),
        }
        self.status = owned("Checking for updates");
        self.resnapshot();
    }

    /// `brew outdated` answered: the scan is over.
    pub fn outdated_checked(&mut self, outdated: Result<Vec<Pkg>, String>)
        requires
            old(self).wf(),
            outdated matches Ok(o) ==> listable(o@),
        ensures
            final(self).wf(),
            final(self)@ == reloaded(
                old(self)@,
                old(self)@.installed,
                old(self)@.catalog,
                match outdated {
                    Ok(o) => pkg_views(o@),
                    Err(_) => old(self)@.outdated,
                },
                match outdated {
                    Ok(_) => old(self)@.log,
                    Err(e) => log_push(old(self)@.log, "Couldn't read outdated packages. "@ + e@),
                },
                false,
                ""@,
                final(self)@.rows,
            ),
            shows_rows(final(self)@.rows, fold_bytes(encode_utf8(old(self)@.query)), final(self)@.snapshot),
    {
        match outdated {
            Ok(o) => self.outdated = o,
            Err(e) => self.push_log(concat("Couldn't read outdated packages. ", e.as_str())),
        }
        self.busy = false;
        self.status = String::new();
        proof {
            reveal_strlit("");
        }
        assert(self@.status == ""@);
        self.resnapshot();
    }

    /// Start working on `count` packages with `brew verb`: refused while
    /// busy or with nothing to do; the log opens, since a run is what one
    /// watches.
    pub fn begin_run(&mut self, verb: &str, count: usize) -> (started: bool)
        requires
            old(self).wf(),
        ensures
            final(self).wf(),
            started == (!old(self)@.busy && count > 0),
            started ==> final(self)@ == (BrowserView {
                busy: true,
                status: run_status(verb@, count as nat),
                log_open: true,
                ..old(self)@
            }),
            !started ==> final(self)@ == old(self)@,
    {
        if self.busy || count == 0 {
            return false;
        }
        self.busy = true;
        let head = concat(progressive(verb).as_str(), " ");
        let with_count = concat(head.as_str(), count_text(count).as_str());
        let with_noun = concat(with_count.as_str(), " package");
        self.status = concat(with_noun.as_str(), plural_of(count));
        self.log_open = true;
        true
    }

    /// A run ended: say so in the log.
    pub fn run_finished(&mut self, verb: &str, count: usize, result: Result<(), String>)
        requires
            old(self).wf(),
        ensures
            final(self).wf(),
            final(self)@ == (BrowserView {
                log: log_push(old(self)@.log, run_summary(verb@, count as nat, result_text(result))),
                ..old(self)@
            }),
    {
        let line = match result {
            Ok(()) => {
                let a = concat("Finished. ", count_text(count).as_str());
                let b = concat(a.as_str(), " package");
                let c = concat(b.as_str(), plural_of(count));
                let d = concat(c.as_str(), " ");
                let e = concat(d.as_str(), verb);
                concat(e.as_str(), "d.")
            },
            Err(e) => concat("Failed. ", e.as_str()),
        };
        self.push_log(line);
    }

    /// After a run, the installed scan and `brew outdated` answered again:
    /// an outdated list that could not be read leaves the old one.
    pub fn rescanned(&mut self, installed: Vec<Pkg>, outdated: Result<Vec<Pkg>, String>)
        requires
            old(self).wf(),
            listable(installed@),
            outdated matches Ok(o) ==> listable(o@),
        ensures
            final(self).wf(),
            final(self)@ == reloaded(
                old(self)@,
                pkg_views(installed@),
                old(self)@.catalog,
                match outdated {
                    Ok(o) => pkg_views(o@),
                    Err(_) => old(self)@.outdated,
                },
                old(self)@.log,
                false,
                ""@,
                final(self)@.rows,
            ),
            shows_rows(final(self)@.rows, fold_bytes(encode_utf8(old(self)@.query)), final(self)@.snapshot),
    {
        self.installed = installed;
        match outdated {
            Ok(o) => self.outdated = o,
            Err(_) => {},
        }
        self.busy = false;
        self.status = String::new();
        proof {
            reveal_strlit("");
        }
        assert(self@.status == ""@);
        self.resnapshot();
    }

    /// Show or hide the log.
    pub fn toggle_log(&mut self)
        requires
            old(self).wf(),
        ensures
            final(self).wf(),
            final(self)@ == (BrowserView { log_open: !old(self)@.log_open, ..old(self)@ }),
    {
        self.log_open = !self.log_open;
    }
}

/// The verb of the primary action on a tab.
pub fn primary_verb(tab: Tab) -> (r: &'static str)
    ensures
        r@ == (if tab == Tab::Browse {
            "install"@
        } else {
            "upgrade"@
        }),
{
    if tab == Tab::Browse {
        "install"
    } else {
        "upgrade"
    }
}


// ---- clicks and what the window shows ---------------------------------------------

/// The front end after a click on the row at `position`: the cursor goes
/// there; a plain click selects only that row, or clears the selection when
/// that row was all that was selected; an additive click toggles the row.
pub open spec fn clicked(v: BrowserView, position: int, additive: bool) -> BrowserView {
    let id = v.rows[position] as u32;
    BrowserView {
        cursor: Some(position),
        selected: if additive {
            if v.selected.contains(id) {
                v.selected.remove(id)
            } else {
                v.selected.insert(id)
            }
        } else if v.selected == set![id] {
            Set::empty()
        } else {
            set![id]
        },
        ..v
    }
}

/// Where `x` stands in `v`, if it does.
fn position_of(v: &Vec<u32>, x: u32) -> (r: Option<usize>)
    ensures
        match r {
            Some(i) => i < v@.len() && v@[i as int] == x,
            None => !v@.contains(x),
        },
{
    let mut i: usize = 0;
    while i < v.len()
        invariant
            i <= v.len(),
            forall|k: int| 0 <= k < i ==> v@[k] != x,
        decreases v.len() - i,
    {
        if v[i] == x {
            return Some(i);
        }
        i = i + 1;
    }
    None
}

/// How a log line is coloured.
#[derive(Clone, Copy, Debug, PartialEq, Eq, Structural)]
pub enum LogTone {
    Failure,
    Summary,
    Command,
    Output,
}

pub open spec fn begins(s: Seq<char>, prefix: Seq<char>) -> bool {
    prefix.len() <= s.len() && s.take(prefix.len() as int) == prefix
}

/// The tone of a log line: failures and unreadable data stand out, the
/// closing summary reads plainly, commands recede, output recedes further.
pub open spec fn log_tone_of(line: Seq<char>) -> LogTone {
    if begins(line, "Failed"@) || begins(line, "Couldn't"@) {
        LogTone::Failure
    } else if begins(line, "Finished"@) {
        LogTone::Summary
    } else if begins(line, "$"@) {
        LogTone::Command
    } else {
        LogTone::Output
    }
}

fn starts(s: &Vec<char>, prefix: &str) -> (r: bool)
    ensures
        r == begins(s@, prefix@),
{
    let p = chars_of(prefix);
    if p.len() > s.len() {
        return false;
    }
    let mut i: usize = 0;
    while i < p.len()
        invariant
            i <= p.len() <= s.len(),
            p@ == prefix@,
            forall|k: int| 0 <= k < i ==> s@[k] == p@[k],
        decreases p.len() - i,
    {
        if s[i] != p[i] {
            return false;
        }
        i = i + 1;
    }
    assert(s@.take(p.len() as int) =~= p@);
    true
}

/// The tone of a log line.
pub fn log_tone(line: &str) -> (r: LogTone)
    ensures
        r == log_tone_of(line@),
{
    let cs = chars_of(line);
    if starts(&cs, "Failed") || starts(&cs, "Couldn't") {
        LogTone::Failure
    } else if starts(&cs, "Finished") {
        LogTone::Summary
    } else if starts(&cs, "$") {
        LogTone::Command
    } else {
        LogTone::Output
    }
}

/// How many of the newest log lines the log pane shows.
pub const LOG_TAIL: usize = 200;

/// What the status bar says: the running status if any, else the size of
/// the selection, else how many rows a search matched.
pub open spec fn status_text(v: BrowserView) -> Seq<char> {
    if v.status.len() > 0 {
        v.status
    } else if v.selected.len() > 0 {
        digits(v.selected.len()) + " selected"@
    } else if v.query.len() > 0 && v.rows.len() > 0 {
        digits(v.rows.len()) + " match"@ + (if v.rows.len() == 1 {
            ""@
        } else {
            "es"@
        })
    } else {
        ""@
    }
}

/// The label of the primary button.
pub open spec fn primary_label_text(v: BrowserView) -> Seq<char> {
    let verb = if v.tab == Tab::Browse {
        "Install"@
    } else {
        "Upgrade"@
    };
    if v.selected.len() > 0 {
        verb + " "@ + digits(v.selected.len())
    } else {
        verb + " Selected"@
    }
}

/// Why the table is empty, when it is and no scan is running.
pub open spec fn empty_text(v: BrowserView) -> Option<Seq<char>> {
    if v.rows.len() > 0 || v.busy {
        None
    } else if v.query.len() > 0 {
        Some("No packages match “"@ + v.query + "”"@)
    } else {
        Some(
            match v.tab {
                Tab::Outdated => "Everything is up to date"@,
                Tab::Installed => "No packages installed"@,
                Tab::Browse => "Catalog unavailable — run brew update, then Refresh"@,
            },
        )
    }
}

/// How a row's version column reads.
pub struct VersionCell {
    /// The installed version, or the latest when nothing is installed.
    pub version: String,
    /// The version an upgrade goes to, when both ends are known and differ.
    pub target: Option<String>,
    /// Outdated with no target to show: the version itself is tinted.
    pub stale: bool,
    pub pinned: bool,
}

/// Whether a row knows both ends of an upgrade.
pub open spec fn has_delta(p: PkgView) -> bool {
    p.installed.len() > 0 && p.latest.len() > 0 && p.latest != p.installed
}

fn same_text(a: &str, b: &str) -> (r: bool)
    ensures
        r == (a@ == b@),
{
    crate::text::text_eq(a, b)
}

/// The version column of a row.
pub fn version_cell(p: &Pkg) -> (r: VersionCell)
    ensures
        r.version@ == (if p@.installed.len() == 0 {
            p@.latest
        } else {
            p@.installed
        }),
        match r.target {
            Some(t) => has_delta(p@) && t@ == p@.latest,
            None => !has_delta(p@),
        },
        r.stale == (p@.outdated && !has_delta(p@)),
        r.pinned == p@.pinned,
{
    let no_installed = chars_of(p.installed.as_str()).len() == 0;
    let no_latest = chars_of(p.latest.as_str()).len() == 0;
    let delta = !no_installed && !no_latest && !same_text(p.latest.as_str(), p.installed.as_str());
    VersionCell {
        version: if no_installed {
            p.latest.clone()
        } else {
            p.installed.clone()
        },
        target: if delta {
            Some(p.latest.clone())
        } else {
            None
        },
        stale: p.outdated && !delta,
        pinned: p.pinned,
    }
}

/// The kind column of a row.
pub fn kind_label(p: &Pkg) -> (r: &'static str)
    ensures
        r@ == (if p@.cask {
            "cask"@
        } else {
            "formula"@
        }),
{
    if p.cask {
        "cask"
    } else {
        "formula"
    }
}

impl Browser {
    /// A click on the row at `position`.
    pub fn click_row(&mut self, position: usize, additive: bool)
        requires
            old(self).wf(),
            position < old(self)@.rows.len(),
        ensures
            final(self).wf(),
            final(self)@ == clicked(old(self)@, position as int, additive),
    {
        let id = self.rows[position];
        assert(self@.rows[position as int] as u32 == id);
        self.cursor = Some(position);
        let ghost before = self.selected@;
        let found = position_of(&self.selected, id);
        if !additive {
            let only = self.selected.len() == 1 && found.is_some();
            proof {
                if only {
                    assert(before =~= seq![id]);
                    assert(before.to_set() =~= set![id]) by {
                        seq![id].lemma_push_to_set_commute(id);
                        assert(Seq::<u32>::empty().push(id) =~= seq![id]);
                        assert(Seq::<u32>::empty().to_set() =~= Set::<u32>::empty());
                    }
                } else if before.to_set() == set![id] {
                    assert(before.to_set().contains(id));
                    before.unique_seq_to_set();
                    assert(before.len() == 1);
                }
            }
            self.selected = Vec::new();
            if !only {
                self.selected.push(id);
                assert(self.selected@ =~= seq![id]);
                assert(self.selected@.to_set() =~= set![id]) by {
                    assert(self.selected@[0] == id);
                    assert(self.selected@.contains(id));
                }
            } else {
                assert(self.selected@.to_set() =~= Set::<u32>::empty());
            }
        } else {
            match found {
                Some(k) => {
                    self.selected.remove(k);
                    assert(self.selected@.to_set() =~= before.to_set().remove(id)) by {
                        assert(self.selected@ == before.remove(k as int));
                        assert forall|x: u32| self.selected@.contains(x) <==> (before.contains(x) && x != id) by {
                            if self.selected@.contains(x) {
                                let j = choose|j: int| 0 <= j < self.selected@.len() && self.selected@[j] == x;
                                if j < k {
                                    assert(before[j] == x);
                                } else {
                                    assert(before[j + 1] == x);
                                }
                            }
                            if before.contains(x) && x != id {
                                let j = choose|j: int| 0 <= j < before.len() && before[j] == x;
                                if j < k {
                                    assert(self.selected@[j] == x);
                                } else {
                                    assert(self.selected@[j - 1] == x);
                                }
                            }
                        }
                    }
                },
                None => {
                    self.selected.push(id);
                    assert(self.selected@.to_set() =~= before.to_set().insert(id)) by {
                        before.lemma_push_to_set_commute(id);
                    }
                },
            }
        }
    }

    /// Empty the search; the selection stays.
    pub fn clear_search(&mut self)
        requires
            old(self).wf(),
        ensures
            final(self).wf(),
            final(self)@ == (BrowserView {
                query: Seq::empty(),
                rows: final(self)@.rows,
                cursor: None,
                ..old(self)@
            }),
            shows_rows(final(self)@.rows, Seq::empty(), old(self)@.snapshot),
    {
        self.query = String::new();
        self.refilter();
    }

    /// What the status bar says.
    pub fn status_line(&self) -> (r: String)
        requires
            self.wf(),
        ensures
            r@ == status_text(self@),
    {
        proof {
            self.selected@.unique_seq_to_set();
            reveal_strlit("");
            reveal_strlit("es");
        }
        if chars_of(self.status.as_str()).len() > 0 {
            self.status.clone()
        } else if self.selected.len() > 0 {
            concat(count_text(self.selected.len()).as_str(), " selected")
        } else if chars_of(self.query.as_str()).len() > 0 && self.rows.len() > 0 {
            let head = concat(count_text(self.rows.len()).as_str(), " match");
            concat(head.as_str(), if self.rows.len() == 1 {
                ""
            } else {
                "es"
            })
        } else {
            String::new()
        }
    }

    /// The label of the primary button.
    pub fn primary_label(&self) -> (r: String)
        requires
            self.wf(),
        ensures
            r@ == primary_label_text(self@),
    {
        proof {
            self.selected@.unique_seq_to_set();
        }
        let verb = if self.tab == Tab::Browse {
            "Install"
        } else {
            "Upgrade"
        };
        if self.selected.len() > 0 {
            let head = concat(verb, " ");
            concat(head.as_str(), count_text(self.selected.len()).as_str())
        } else {
            concat(verb, " Selected")
        }
    }

    /// Why the table is empty.
    pub fn empty_message(&self) -> (r: Option<String>)
        ensures
            match r {
                Some(m) => empty_text(self@) == Some(m@),
                None => empty_text(self@) is None,
            },
    {
        if self.rows.len() > 0 || self.busy {
            None
        } else if chars_of(self.query.as_str()).len() > 0 {
            let head = concat("No packages match “", self.query.as_str());
            Some(concat(head.as_str(), "”"))
        } else {
            Some(
                owned(
                    match self.tab {
                        Tab::Outdated => "Everything is up to date",
                        Tab::Installed => "No packages installed",
                        Tab::Browse => "Catalog unavailable — run brew update, then Refresh",
                    },
                ),
            )
        }
    }

    /// The newest log lines, oldest first, as many as the pane shows.
    pub fn log_tail(&self) -> (r: Vec<String>)
        ensures
            r@.map_values(|l: String| l@) == (if self@.log.len() > LOG_TAIL {
                self@.log.skip(self@.log.len() - LOG_TAIL)
            } else {
                self@.log
            }),
    {
        let n = self.log.len();
        let start = if n > LOG_TAIL {
            n - LOG_TAIL
        } else {
            0
        };
        let ghost all = self@.log;
        let mut out: Vec<String> = Vec::new();
        let mut i = start;
        while i < n
            invariant
                start <= i <= n,
                n == self.log@.len(),
                all == self.log@.map_values(|l: String| l@),
                out@.map_values(|l: String| l@) =~= all.subrange(start as int, i as int),
            decreases n - i,
        {
            let ghost prefix = out@.map_values(|l: String| l@);
            out.push(self.log[i].clone());
            assert(all[i as int] == self.log@[i as int]@);
            assert(out@.map_values(|l: String| l@) =~= prefix.push(all[i as int]));
            i = i + 1;
        }
        assert(all.subrange(0, n as int) =~= all);
        out
    }

    /// Whether Refresh can be pressed.
    pub fn can_refresh(&self) -> (r: bool)
        ensures
            r == !self@.busy,
    {
        !self.busy
    }

    /// Whether the primary button can be pressed.
    pub fn can_act(&self) -> (r: bool)
        requires
            self.wf(),
        ensures
            r == (!self@.busy && self@.selected.len() > 0),
    {
        proof {
            self.selected@.unique_seq_to_set();
        }
        !self.busy && self.selected.len() > 0
    }

    /// Whether Upgrade All can be pressed.
    pub fn can_upgrade_all(&self) -> (r: bool)
        ensures
            r == (!self@.busy && self@.outdated.len() > 0),
    {
        !self.busy && self.outdated.len() > 0
    }
}


// ---- reading the state -----------------------------------------------------------

impl Browser {
    pub fn tab(&self) -> (r: Tab)
        ensures
            r == self@.tab,
    {
        self.tab
    }

    pub fn query(&self) -> (r: &str)
        ensures
            r@ == self@.query,
    {
        self.query.as_str()
    }

    pub fn is_busy(&self) -> (r: bool)
        ensures
            r == self@.busy,
    {
        self.busy
    }

    pub fn is_log_open(&self) -> (r: bool)
        ensures
            r == self@.log_open,
    {
        self.log_open
    }

    pub fn log_len(&self) -> (r: usize)
        ensures
            r == self@.log.len(),
    {
        self.log.len()
    }

    pub fn cursor(&self) -> (r: Option<usize>)
        ensures
            position_view(r) == self@.cursor,
    {
        self.cursor
    }

    /// How many rows the table shows.
    pub fn row_count(&self) -> (r: usize)
        ensures
            r == self@.rows.len(),
    {
        self.rows.len()
    }

    /// The package shown at `position` of the table, and whether it is
    /// selected.
    pub fn row_at(&self, position: usize) -> (r: Option<(&Pkg, bool)>)
        requires
            self.wf(),
        ensures
            match r {
                Some((p, selected)) => position < self@.rows.len() && p@ == self@.snapshot[self@.rows[position as int]]
                    && selected == self@.selected.contains(self@.rows[position as int] as u32),
                None => position >= self@.rows.len(),
            },
    {
        if position >= self.rows.len() {
            return None;
        }
        let id = self.rows[position];
        assert(self@.rows[position as int] == id as int);
        let p = &self.snapshot[id as usize];
        assert(self@.snapshot[id as int] == p@);
        Some((p, holds(&self.selected, id)))
    }

    /// How many packages each tab lists: outdated, installed, catalog.
    pub fn counts(&self) -> (r: (usize, usize, usize))
        ensures
            r.0 == self@.outdated.len(),
            r.1 == self@.installed.len(),
            r.2 == self@.catalog.len(),
    {
        (self.outdated.len(), self.installed.len(), self.catalog.len())
    }
}


/// Whether rows can stand in the front end's lists: few enough for row
/// indices, each with search buffers that fit its text.
pub fn rows_listable(rows: &Vec<Pkg>) -> (r: bool)
    ensures
        r == listable(rows@),
{
    if rows.len() > 4294967295usize {
        return false;
    }
    let mut i: usize = 0;
    while i < rows.len()
        invariant
            i <= rows.len(),
            forall|k: int| 0 <= k < i ==> searchable(#[trigger] pkg_views(rows@)[k]),
        decreases rows.len() - i,
    {
        let p = &rows[i];
        assert(pkg_views(rows@)[i as int] == p@);
        if p.name_lc.len() > p.name.as_str().as_bytes().len() || p.desc_lc.len() > p.desc.as_str().as_bytes().len() {
            return false;
        }
        i = i + 1;
    }
    true
}

// ---- laws ----------------------------------------------------------------------

/// Arrow keys move only the cursor and the selection: the query and the
/// rows stay, and with shift held the selection only grows.
pub proof fn arrows_never_touch_the_query(v: BrowserView, delta: int, extend: bool)
    ensures
        moved(v, delta, extend).query == v.query,
        moved(v, delta, extend).rows == v.rows,
        moved(v, delta, extend).snapshot == v.snapshot,
        extend ==> v.selected.subset_of(moved(v, delta, extend).selected),
{
}

/// The log stays within its limit and always ends with the newest line;
/// what it keeps is the newest part of everything appended.
pub proof fn log_keeps_the_newest_lines(log: Seq<Seq<char>>, line: Seq<char>)
    requires
        log.len() <= LOG_LIMIT,
    ensures
        log_push(log, line).len() <= LOG_LIMIT,
        log_push(log, line).last() == line,
        log.push(line).subrange(log.len() + 1 - log_push(log, line).len(), log.len() + 1 as int) == log_push(log, line),
{
    let grown = log.push(line);
    if grown.len() > LOG_LIMIT {
        assert(grown.skip(grown.len() - LOG_KEEP) =~= grown.subrange(grown.len() - LOG_KEEP, grown.len() as int));
    } else {
        assert(grown.subrange(0, grown.len() as int) =~= grown);
    }
}

} // verus!
