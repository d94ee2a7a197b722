//! The package rows of the lightweight front end: what is read off disk and
//! from `brew` becomes `Pkg`s, and a mutation becomes `brew` invocations.
//!
//! Writes go through `brew`, and formulae and casks are separate commands: a
//! bare name resolves to the formula, so a cask sharing its token with a
//! formula would be acted on as the formula.
use crate::ascii::fold_bytes;
use crate::order::{lex, lex_sign};
use crate::rank::{fold, rank_version_order, rank_version_sign};
use crate::sign::ordering_of;
use std::cmp::Ordering;
use vstd::prelude::*;
use vstd::string::StringSliceAdditionalSpecFns;
use vstd::utf8::encode_utf8;

verus! {

/// Where Homebrew lives on Apple silicon.
pub const APPLE_SILICON_PREFIX: &'static str = "/opt/homebrew";

/// Where Homebrew lives on Intel Macs.
pub const INTEL_PREFIX: &'static str = "/usr/local";

/// The Homebrew prefix to use: `/opt/homebrew` when `bin/brew` is a file
/// there, else `/usr/local` when it is a file there, else none.
pub fn detect_prefix(apple_silicon_has_brew: bool, intel_has_brew: bool) -> (r: Option<&'static str>)
    ensures
        apple_silicon_has_brew ==> r == Some(APPLE_SILICON_PREFIX),
        !apple_silicon_has_brew && intel_has_brew ==> r == Some(INTEL_PREFIX),
        !apple_silicon_has_brew && !intel_has_brew ==> r is None,
{
    if apple_silicon_has_brew {
        Some(APPLE_SILICON_PREFIX)
    } else if intel_has_brew {
        Some(INTEL_PREFIX)
    } else {
        None
    }
}

/// One package row.
#[derive(Clone, Debug)]
pub struct Pkg {
    pub name: String,
    pub installed: String,
    pub latest: String,
    pub desc: String,
    pub cask: bool,
    pub outdated: bool,
    pub pinned: bool,
    /// The name, ASCII-folded once so that search does not fold per key press.
    pub name_lc: Vec<u8>,
    /// The description, ASCII-folded.
    pub desc_lc: Vec<u8>,
}

/// A row as values.
pub struct PkgView {
    pub name: Seq<char>,
    pub installed: Seq<char>,
    pub latest: Seq<char>,
    pub desc: Seq<char>,
    pub cask: bool,
    pub outdated: bool,
    pub pinned: bool,
    pub name_lc: Seq<u8>,
    pub desc_lc: Seq<u8>,
}

impl View for Pkg {
    type V = PkgView;

    open spec fn view(&self) -> PkgView {
        PkgView {
            name: self.name@,
            installed: self.installed@,
            latest: self.latest@,
            desc: self.desc@,
            cask: self.cask,
            outdated: self.outdated,
            pinned: self.pinned,
            name_lc: self.name_lc@,
            desc_lc: self.desc_lc@,
        }
    }
}

/// The views of a sequence of rows.
pub open spec fn pkg_views(s: Seq<Pkg>) -> Seq<PkgView> {
    s.map_values(|p: Pkg| p@)
}

/// A row with empty text, no flags and nothing folded.
pub open spec fn empty_row() -> PkgView {
    PkgView {
        name: Seq::empty(),
        installed: Seq::empty(),
        latest: Seq::empty(),
        desc: Seq::empty(),
        cask: false,
        outdated: false,
        pinned: false,
        name_lc: Seq::empty(),
        desc_lc: Seq::empty(),
    }
}

/// `p` with its search buffers folded from its name and description.
pub open spec fn folded(p: PkgView) -> PkgView {
    PkgView {
        name_lc: fold_bytes(encode_utf8(p.name)),
        desc_lc: fold_bytes(encode_utf8(p.desc)),
        ..p
    }
}

impl Default for Pkg {
    fn default() -> (r: Pkg)
        ensures
            r@ == empty_row(),
    {
        Pkg {
            name: String::new(),
            installed: String::new(),
            latest: String::new(),
            desc: String::new(),
            cask: false,
            outdated: false,
            pinned: false,
            name_lc: Vec::new(),
            desc_lc: Vec::new(),
        }
    }
}

impl Pkg {
    /// Fill the search buffers from the name and description.
    fn fold(&mut self)
        ensures
            final(self)@ == folded(old(self)@),
    {
        self.name_lc = fold(self.name.as_str());
        self.desc_lc = fold(self.desc.as_str());
    }
}

/// Fold the search buffers of every row.
pub fn fold_all(v: &mut [Pkg])
    ensures
        final(v)@.len() == old(v)@.len(),
        forall|i: int| 0 <= i < old(v)@.len() ==> (#[trigger] final(v)@[i])@ == folded(old(v)@[i]@),
    decreases old(v)@.len(),
{
    if v.len() == 0 {
        return;
    }
    let (head, tail) = v.split_at_mut(1);
    match head.first_mut() {
        Some(p) => p.fold(),
        None => {},
    }
    fold_all(tail);
}

// ---- ordering by name ---------------------------------------------------------

/// A row's sort key: its name as bytes (`String`'s order is byte order).
pub open spec fn name_key(p: PkgView) -> Seq<u8> {
    encode_utf8(p.name)
}

/// `out` is `inp` sorted by name, rows with equal names kept in their order
/// in `inp`.
pub open spec fn sorted_by_name_from(out: Seq<PkgView>, inp: Seq<PkgView>) -> bool {
    &&& forall|i: int, j: int|
        0 <= i < j < out.len() ==> lex(name_key(#[trigger] out[i]), name_key(#[trigger] out[j])) <= 0
    &&& forall|k: Seq<u8>| #[trigger] with_name_key(out, k) == with_name_key(inp, k)
}

/// The rows of `s` whose name key is `k`, in order.
pub open spec fn with_name_key(s: Seq<PkgView>, k: Seq<u8>) -> Seq<PkgView> {
    s.filter(|p: PkgView| name_key(p) == k)
}

/// Compares two rows by name, as `String`'s order does.
fn name_cmp(a: &Pkg, b: &Pkg) -> (o: Ordering)
    ensures
        o == Ordering::Less <==> lex(name_key(a@), name_key(b@)) < 0,
        o == Ordering::Equal <==> lex(name_key(a@), name_key(b@)) == 0,
        o == Ordering::Greater <==> lex(name_key(a@), name_key(b@)) > 0,
{
    let r = lex_sign(a.name.as_str().as_bytes(), b.name.as_str().as_bytes());
    proof {
        crate::order::lemma_lex(name_key(a@), name_key(b@), name_key(a@));
    }
    ordering_of(r)
}

/// Calls `slice::sort_by` with `name_cmp`, a total order on names. The
/// contract claims what std documents of `sort_by`: the result is sorted by
/// the comparison and the sort is stable, so rows with equal names keep
/// their order.
#[verifier::external_body]
fn sort_by_name(v: &mut Vec<Pkg>)
    ensures
        final(v)@.len() == old(v)@.len(),
        sorted_by_name_from(pkg_views(final(v)@), pkg_views(old(v)@)),
{
    v.sort_by(|a, b| name_cmp(a, b));
}

// ---- building rows from what was read -----------------------------------------

/// A package directory found under `Cellar` or `Caskroom`, with the names of
/// its version directories.
pub struct InstalledDir {
    pub name: String,
    pub cask: bool,
    pub versions: Vec<String>,
}

/// Whether a directory name is hidden (starts with a dot).
pub open spec fn is_hidden(name: Seq<char>) -> bool {
    name.len() > 0 && name[0] == '.'
}

pub(crate) fn hidden(name: &str) -> (r: bool)
    ensures
        r == is_hidden(name@),
{
    let chars = crate::text::chars_of(name);
    chars.len() > 0 && chars[0] == '.'
}

/// `r` is the last of the newest visible names in `names`, by Homebrew's
/// version order, or none when every name is hidden.
pub open spec fn is_newest_version(r: Option<Seq<char>>, names: Seq<Seq<char>>) -> bool {
    match r {
        None => forall|j: int| 0 <= j < names.len() ==> is_hidden(#[trigger] names[j]),
        Some(n) => exists|i: int|
            0 <= i < names.len() && names[i] == n && !is_hidden(n) && (forall|j: int|
                0 <= j < names.len() && !is_hidden(#[trigger] names[j]) ==> rank_version_order(
                    encode_utf8(names[j]),
                    encode_utf8(n),
                ) <= 0) && (forall|j: int|
                i < j < names.len() && !is_hidden(#[trigger] names[j]) ==> rank_version_order(
                    encode_utf8(names[j]),
                    encode_utf8(n),
                ) < 0),
    }
}

/// The newest visible name of `names`, scanning left to right and letting a
/// later name win a tie.
pub open spec fn newest_of(names: Seq<Seq<char>>) -> Option<Seq<char>>
    decreases names.len(),
{
    if names.len() == 0 {
        None
    } else {
        let rest = newest_of(names.drop_last());
        let n = names.last();
        if is_hidden(n) {
            rest
        } else {
            match rest {
                None => Some(n),
                Some(b) => if rank_version_order(encode_utf8(b), encode_utf8(n)) <= 0 {
                    Some(n)
                } else {
                    Some(b)
                },
            }
        }
    }
}

/// The newest version found is the last of the visible names that no other
/// visible name exceeds in Homebrew's version order.
pub proof fn newest_of_is_newest(names: Seq<Seq<char>>)
    ensures
        is_newest_version(newest_of(names), names),
    decreases names.len(),
{
    if names.len() > 0 {
        let rest = names.drop_last();
        newest_of_is_newest(rest);
        let n = names.last();
        let last = names.len() - 1;
        assert forall|j: int| 0 <= j < rest.len() implies names[j] == #[trigger] rest[j] by {}
        if !is_hidden(n) {
            match newest_of(rest) {
                None => {
                    lemma_version_order(encode_utf8(n), encode_utf8(n), encode_utf8(n));
                    assert(names[last] == n);
                    assert forall|j: int|
                        0 <= j < names.len() && !is_hidden(#[trigger] names[j]) implies rank_version_order(
                        encode_utf8(names[j]),
                        encode_utf8(n),
                    ) <= 0 by {
                        if j < last {
                            assert(is_hidden(rest[j]));
                        }
                    }
                },
                Some(b) => {
                    let i = choose|i: int|
                        0 <= i < rest.len() && rest[i] == b && !is_hidden(b) && (forall|j: int|
                            0 <= j < rest.len() && !is_hidden(#[trigger] rest[j]) ==> rank_version_order(
                                encode_utf8(rest[j]),
                                encode_utf8(b),
                            ) <= 0) && (forall|j: int|
                            i < j < rest.len() && !is_hidden(#[trigger] rest[j]) ==> rank_version_order(
                                encode_utf8(rest[j]),
                                encode_utf8(b),
                            ) < 0);
                    lemma_version_order(encode_utf8(n), encode_utf8(b), encode_utf8(n));
                    if rank_version_order(encode_utf8(b), encode_utf8(n)) <= 0 {
                        assert(names[last] == n);
                        assert forall|j: int|
                            0 <= j < names.len() && !is_hidden(#[trigger] names[j]) implies rank_version_order(
                            encode_utf8(names[j]),
                            encode_utf8(n),
                        ) <= 0 by {
                            if j < last {
                                assert(!is_hidden(rest[j]));
                                lemma_version_order(encode_utf8(rest[j]), encode_utf8(b), encode_utf8(n));
                            } else {
                                lemma_version_order(encode_utf8(n), encode_utf8(n), encode_utf8(n));
                            }
                        }
                    } else {
                        assert(names[i] == b);
                        assert forall|j: int|
                            0 <= j < names.len() && !is_hidden(#[trigger] names[j]) implies rank_version_order(
                            encode_utf8(names[j]),
                            encode_utf8(b),
                        ) <= 0 by {
                            if j < last {
                                assert(!is_hidden(rest[j]));
                            }
                        }
                        assert forall|j: int|
                            i < j < names.len() && !is_hidden(#[trigger] names[j]) implies rank_version_order(
                            encode_utf8(names[j]),
                            encode_utf8(b),
                        ) < 0 by {
                            if j < last {
                                assert(!is_hidden(rest[j]));
                            }
                        }
                    }
                },
            }
        } else {
            match newest_of(rest) {
                None => {
                    assert forall|j: int| 0 <= j < names.len() implies is_hidden(#[trigger] names[j]) by {
                        if j < last {
                            assert(is_hidden(rest[j]));
                        }
                    }
                },
                Some(b) => {
                    let i = choose|i: int|
                        0 <= i < rest.len() && rest[i] == b && !is_hidden(b) && (forall|j: int|
                            0 <= j < rest.len() && !is_hidden(#[trigger] rest[j]) ==> rank_version_order(
                                encode_utf8(rest[j]),
                                encode_utf8(b),
                            ) <= 0) && (forall|j: int|
                            i < j < rest.len() && !is_hidden(#[trigger] rest[j]) ==> rank_version_order(
                                encode_utf8(rest[j]),
                                encode_utf8(b),
                            ) < 0);
                    assert(names[i] == b);
                    assert forall|j: int|
                        0 <= j < names.len() && !is_hidden(#[trigger] names[j]) implies rank_version_order(
                        encode_utf8(names[j]),
                        encode_utf8(b),
                    ) <= 0 by {
                        if j < last {
                            assert(!is_hidden(rest[j]));
                        }
                    }
                    assert forall|j: int|
                        i < j < names.len() && !is_hidden(#[trigger] names[j]) implies rank_version_order(
                        encode_utf8(names[j]),
                        encode_utf8(b),
                    ) < 0 by {
                        if j < last {
                            assert(!is_hidden(rest[j]));
                        }
                    }
                },
            }
        }
    }
}

/// The laws of Homebrew's version order that picking a newest version uses.
proof fn lemma_version_order(x: Seq<u8>, y: Seq<u8>, z: Seq<u8>)
    ensures
        rank_version_order(x, y) == -rank_version_order(y, x),
        rank_version_order(x, x) == 0,
        rank_version_order(x, y) <= 0 && rank_version_order(y, z) <= 0 ==> rank_version_order(x, z) <= 0,
        rank_version_order(x, y) < 0 && rank_version_order(y, z) <= 0 ==> rank_version_order(x, z) < 0,
{
    crate::rank::lemma_rank_version_order_total();
    let f = |a: Seq<u8>, b: Seq<u8>| rank_version_order(a, b);
    assert(f(x, y) == -f(y, x));
    assert(f(x, x) == -f(x, x));
    assert(f(y, z) == -f(z, y));
    assert(f(x, z) == -f(z, x));
    if f(x, y) <= 0 && f(y, z) <= 0 {
        assert(f(x, z) <= 0);
    }
    if f(x, y) < 0 && f(y, z) <= 0 && f(x, z) >= 0 {
        assert(f(z, x) <= 0);
        assert(f(z, y) <= 0);
        assert(f(x, z) <= 0);
        assert(f(y, x) <= 0);
    }
}

/// The view of an optional string.
pub open spec fn text_view(o: Option<String>) -> Option<Seq<char>> {
    match o {
        Some(s) => Some(s@),
        None => None,
    }
}

/// The newest installed version among version directory names: hidden
/// names skipped, ordered by Homebrew's version order, not lexically (a
/// plain sort puts "10.0" before "9.0"); of equal versions the last wins.
pub fn newest_version(names: &[String]) -> (r: Option<String>)
    ensures
        text_view(r) == newest_of(names@.map_values(|s: String| s@)),
        is_newest_version(text_view(r), names@.map_values(|s: String| s@)),
{
    let ghost ns = names@.map_values(|s: String| s@);
    let mut best: Option<usize> = None;
    let mut i: usize = 0;
    while i < names.len()
        invariant
            i <= names.len(),
            ns == names@.map_values(|s: String| s@),
            match best {
                None => newest_of(ns.take(i as int)) is None,
                Some(b) => b < i && newest_of(ns.take(i as int)) == Some(ns[b as int]),
            },
        decreases names.len() - i,
    {
        assert(ns[i as int] == names@[i as int]@);
        assert(ns.take(i + 1).drop_last() =~= ns.take(i as int));
        assert(ns.take(i + 1).last() == ns[i as int]);
        let is_dot = hidden(names[i].as_str());
        if !is_dot {
            match best {
                None => {
                    best = Some(i);
                },
                Some(b) => {
                    assert(ns[b as int] == names@[b as int]@);
                    if rank_version_sign(names[b].as_str().as_bytes(), names[i].as_str().as_bytes()) <= 0 {
                        best = Some(i);
                    }
                },
            }
        }
        i = i + 1;
    }
    assert(ns.take(i as int) =~= ns);
    proof {
        newest_of_is_newest(ns);
    }
    match best {
        Some(b) => {
            assert(ns[b as int] == names@[b as int]@);
            Some(crate::text::owned(names[b].as_str()))
        },
        None => None,
    }
}

/// The text of an optional string, empty when there is none.
pub open spec fn text_or_empty(o: Option<String>) -> Seq<char> {
    match o {
        Some(s) => s@,
        None => Seq::empty(),
    }
}

fn owned_or_empty(o: &Option<String>) -> (r: String)
    ensures
        r@ == text_or_empty(*o),
{
    match o {
        Some(s) => s.clone(),
        None => String::new(),
    }
}

/// A folded row built from its fields.
fn row(name: String, installed: String, latest: String, desc: String, cask: bool, outdated: bool, pinned: bool) -> (r: Pkg)
    ensures
        r@ == folded(
            PkgView {
                name: name@,
                installed: installed@,
                latest: latest@,
                desc: desc@,
                cask,
                outdated,
                pinned,
                ..empty_row()
            },
        ),
{
    let mut p = Pkg {
        name,
        installed,
        latest,
        desc,
        cask,
        outdated,
        pinned,
        name_lc: Vec::new(),
        desc_lc: Vec::new(),
    };
    p.fold();
    p
}

/// The row for an installed package directory.
pub open spec fn installed_row(d: InstalledDir) -> PkgView {
    folded(
        PkgView {
            name: d.name@,
            installed: match newest_of(d.versions@.map_values(|s: String| s@)) {
                Some(v) => v,
                None => Seq::empty(),
            },
            cask: d.cask,
            ..empty_row()
        },
    )
}

/// The rows of the visible package directories, in the order found.
pub open spec fn installed_rows(dirs: Seq<InstalledDir>) -> Seq<PkgView>
    decreases dirs.len(),
{
    if dirs.len() == 0 {
        Seq::empty()
    } else if is_hidden(dirs.last().name@) {
        installed_rows(dirs.drop_last())
    } else {
        installed_rows(dirs.drop_last()).push(installed_row(dirs.last()))
    }
}

/// The installed rows for the package directories found under `Cellar` and
/// `Caskroom`: hidden names skipped, each with its newest version, sorted
/// by name and folded for search.
pub fn installed_pkgs(dirs: Vec<InstalledDir>) -> (r: Vec<Pkg>)
    ensures
        sorted_by_name_from(pkg_views(r@), installed_rows(dirs@)),
{
    let mut out: Vec<Pkg> = Vec::new();
    let mut i: usize = 0;
    while i < dirs.len()
        invariant
            i <= dirs.len(),
            pkg_views(out@) == installed_rows(dirs@.take(i as int)),
        decreases dirs.len() - i,
    {
        assert(dirs@.take(i + 1).drop_last() =~= dirs@.take(i as int));
        assert(dirs@.take(i + 1).last() == dirs@[i as int]);
        let d = &dirs[i];
        if !hidden(d.name.as_str()) {
            let installed = match newest_version(d.versions.as_slice()) {
                Some(v) => v,
                None => String::new(),
            };
            let ghost before = pkg_views(out@);
            out.push(row(d.name.clone(), installed, String::new(), String::new(), d.cask, false, false));
            assert(pkg_views(out@) =~= before.push(installed_row(dirs@[i as int])));
        }
        i = i + 1;
    }
    assert(dirs@.take(i as int) =~= dirs@);
    sort_by_name(&mut out);
    out
}

/// A formula or cask of Homebrew's catalog cache, with its description and
/// latest version where the cache gives them.
pub struct CatalogEntry {
    pub name: String,
    pub desc: Option<String>,
    pub version: Option<String>,
}

/// The row for a catalog entry.
pub open spec fn catalog_row(e: CatalogEntry, cask: bool) -> PkgView {
    folded(
        PkgView {
            name: e.name@,
            latest: text_or_empty(e.version),
            desc: text_or_empty(e.desc),
            cask,
            ..empty_row()
        },
    )
}

/// The catalog rows: formulae first, then casks.
pub open spec fn catalog_rows(formulae: Seq<CatalogEntry>, casks: Seq<CatalogEntry>) -> Seq<PkgView> {
    formulae.map_values(|e: CatalogEntry| catalog_row(e, false)) + casks.map_values(
        |e: CatalogEntry| catalog_row(e, true),
    )
}

fn push_catalog(out: &mut Vec<Pkg>, entries: &Vec<CatalogEntry>, cask: bool)
    ensures
        pkg_views(final(out)@) == pkg_views(old(out)@) + entries@.map_values(
            |e: CatalogEntry| catalog_row(e, cask),
        ),
{
    let ghost start = pkg_views(out@);
    let mut i: usize = 0;
    while i < entries.len()
        invariant
            i <= entries.len(),
            pkg_views(out@) == start + entries@.take(i as int).map_values(
                |e: CatalogEntry| catalog_row(e, cask),
            ),
        decreases entries.len() - i,
    {
        let e = &entries[i];
        let ghost before = pkg_views(out@);
        out.push(row(e.name.clone(), String::new(), owned_or_empty(&e.version), owned_or_empty(&e.desc), cask, false, false));
        assert(pkg_views(out@) =~= before.push(catalog_row(entries@[i as int], cask)));
        assert(entries@.take(i + 1).map_values(|e: CatalogEntry| catalog_row(e, cask))
            =~= entries@.take(i as int).map_values(|e: CatalogEntry| catalog_row(e, cask)).push(
            catalog_row(entries@[i as int], cask),
        ));
        i = i + 1;
    }
    assert(entries@.take(i as int) =~= entries@);
}

/// The rows of Homebrew's catalog: formulae and casks, sorted by name
/// (a formula before a cask of the same name) and folded for search.
pub fn catalog_pkgs(formulae: Vec<CatalogEntry>, casks: Vec<CatalogEntry>) -> (r: Vec<Pkg>)
    ensures
        sorted_by_name_from(pkg_views(r@), catalog_rows(formulae@, casks@)),
{
    let mut out: Vec<Pkg> = Vec::new();
    assert(pkg_views(out@) =~= Seq::<PkgView>::empty());
    push_catalog(&mut out, &formulae, false);
    push_catalog(&mut out, &casks, true);
    assert(pkg_views(out@) =~= catalog_rows(formulae@, casks@));
    sort_by_name(&mut out);
    out
}

/// A package of `brew outdated --json=v2`.
pub struct OutdatedEntry {
    pub name: String,
    pub installed_versions: Vec<String>,
    pub current_version: String,
    pub pinned: bool,
}

/// The row for an outdated package: the last installed version against the
/// current one.
pub open spec fn outdated_row(e: OutdatedEntry, cask: bool) -> PkgView {
    folded(
        PkgView {
            name: e.name@,
            installed: if e.installed_versions@.len() > 0 {
                e.installed_versions@.last()@
            } else {
                Seq::empty()
            },
            latest: e.current_version@,
            cask,
            outdated: true,
            pinned: e.pinned,
            ..empty_row()
        },
    )
}

/// The outdated rows: formulae first, then casks.
pub open spec fn outdated_rows(formulae: Seq<OutdatedEntry>, casks: Seq<OutdatedEntry>) -> Seq<PkgView> {
    formulae.map_values(|e: OutdatedEntry| outdated_row(e, false)) + casks.map_values(
        |e: OutdatedEntry| outdated_row(e, true),
    )
}

fn push_outdated(out: &mut Vec<Pkg>, entries: &Vec<OutdatedEntry>, cask: bool)
    ensures
        pkg_views(final(out)@) == pkg_views(old(out)@) + entries@.map_values(
            |e: OutdatedEntry| outdated_row(e, cask),
        ),
{
    let ghost start = pkg_views(out@);
    let mut i: usize = 0;
    while i < entries.len()
        invariant
            i <= entries.len(),
            pkg_views(out@) == start + entries@.take(i as int).map_values(
                |e: OutdatedEntry| outdated_row(e, cask),
            ),
        decreases entries.len() - i,
    {
        let e = &entries[i];
        let n = e.installed_versions.len();
        let installed = if n > 0 {
            e.installed_versions[n - 1].clone()
        } else {
            String::new()
        };
        let ghost before = pkg_views(out@);
        out.push(row(e.name.clone(), installed, e.current_version.clone(), String::new(), cask, true, e.pinned));
        assert(pkg_views(out@) =~= before.push(outdated_row(entries@[i as int], cask)));
        assert(entries@.take(i + 1).map_values(|e: OutdatedEntry| outdated_row(e, cask))
            =~= entries@.take(i as int).map_values(|e: OutdatedEntry| outdated_row(e, cask)).push(
            outdated_row(entries@[i as int], cask),
        ));
        i = i + 1;
    }
    assert(entries@.take(i as int) =~= entries@);
}

/// The rows of Homebrew's outdated report, sorted by name and folded.
pub fn outdated_pkgs(formulae: Vec<OutdatedEntry>, casks: Vec<OutdatedEntry>) -> (r: Vec<Pkg>)
    ensures
        sorted_by_name_from(pkg_views(r@), outdated_rows(formulae@, casks@)),
{
    let mut out: Vec<Pkg> = Vec::new();
    assert(pkg_views(out@) =~= Seq::<PkgView>::empty());
    push_outdated(&mut out, &formulae, false);
    push_outdated(&mut out, &casks, true);
    assert(pkg_views(out@) =~= outdated_rows(formulae@, casks@));
    sort_by_name(&mut out);
    out
}

// ---- invocations ----------------------------------------------------------------

/// The names in `items` of one kind (casks when `cask`), in order.
pub open spec fn names_of_kind(items: Seq<(Seq<char>, bool)>, cask: bool) -> Seq<Seq<char>>
    decreases items.len(),
{
    if items.len() == 0 {
        Seq::empty()
    } else if items.last().1 == cask {
        names_of_kind(items.drop_last(), cask).push(items.last().0)
    } else {
        names_of_kind(items.drop_last(), cask)
    }
}

/// The `brew` invocations for `(name, is_cask)` targets: one for the
/// formulae (`verb names..`), then one for the casks (`verb --cask
/// names..`), each only when it has a name.
pub open spec fn plan_spec(verb: Seq<char>, items: Seq<(Seq<char>, bool)>) -> Seq<Seq<Seq<char>>> {
    let formulae = names_of_kind(items, false);
    let casks = names_of_kind(items, true);
    (if formulae.len() > 0 {
        seq![seq![verb] + formulae]
    } else {
        Seq::empty()
    }) + (if casks.len() > 0 {
        seq![seq![verb, "--cask"@] + casks]
    } else {
        Seq::empty()
    })
}

/// The views of invocations.
pub open spec fn invocation_views(r: Seq<Vec<String>>) -> Seq<Seq<Seq<char>>> {
    r.map_values(|cmd: Vec<String>| cmd@.map_values(|a: String| a@))
}

/// The views of `(name, is_cask)` targets.
pub open spec fn target_views(items: Seq<(String, bool)>) -> Seq<(Seq<char>, bool)> {
    items.map_values(|it: (String, bool)| (it.0@, it.1))
}

/// Build the `brew` invocations for a set of `(name, is_cask)` targets.
///
/// Formulae and casks must be separate commands: a token can be both a
/// formula and an installed cask, and a bare name resolves to the formula.
pub fn plan(verb: &str, items: Vec<(String, bool)>) -> (r: Vec<Vec<String>>)
    ensures
        invocation_views(r@) == plan_spec(verb@, target_views(items@)),
{
    let ghost t = target_views(items@);
    let mut formulae: Vec<String> = Vec::new();
    let mut casks: Vec<String> = Vec::new();
    let mut i: usize = 0;
    while i < items.len()
        invariant
            i <= items.len(),
            t == target_views(items@),
            formulae@.map_values(|a: String| a@) == names_of_kind(t.take(i as int), false),
            casks@.map_values(|a: String| a@) == names_of_kind(t.take(i as int), true),
        decreases items.len() - i,
    {
        assert(t.take(i + 1).drop_last() =~= t.take(i as int));
        assert(t.take(i + 1).last() == t[i as int]);
        let name = items[i].0.clone();
        if items[i].1 {
            let ghost before = casks@.map_values(|a: String| a@);
            casks.push(name);
            assert(casks@.map_values(|a: String| a@) =~= before.push(t[i as int].0));
        } else {
            let ghost before = formulae@.map_values(|a: String| a@);
            formulae.push(name);
            assert(formulae@.map_values(|a: String| a@) =~= before.push(t[i as int].0));
        }
        i = i + 1;
    }
    assert(t.take(i as int) =~= t);
    let mut out: Vec<Vec<String>> = Vec::new();
    if formulae.len() > 0 {
        out.push(command(verb, false, formulae));
    }
    if casks.len() > 0 {
        out.push(command(verb, true, casks));
    }
    assert(invocation_views(out@) =~= plan_spec(verb@, t));
    out
}

/// One invocation: the verb, `--cask` for casks, then the names.
fn command(verb: &str, cask: bool, names: Vec<String>) -> (r: Vec<String>)
    ensures
        r@.map_values(|a: String| a@) == (if cask {
            seq![verb@, "--cask"@]
        } else {
            seq![verb@]
        }) + names@.map_values(|a: String| a@),
{
    let mut args: Vec<String> = Vec::new();
    args.push(crate::text::owned(verb));
    if cask {
        args.push(crate::text::owned("--cask"));
    }
    let ghost head = args@.map_values(|a: String| a@);
    let mut i: usize = 0;
    while i < names.len()
        invariant
            i <= names.len(),
            args@.map_values(|a: String| a@) == head + names@.take(i as int).map_values(|a: String| a@),
        decreases names.len() - i,
    {
        let ghost before = args@.map_values(|a: String| a@);
        args.push(names[i].clone());
        assert(args@.map_values(|a: String| a@) =~= before.push(names@[i as int]@));
        assert(names@.take(i + 1).map_values(|a: String| a@) =~= names@.take(i as int).map_values(
            |a: String| a@,
        ).push(names@[i as int]@));
        i = i + 1;
    }
    assert(names@.take(i as int) =~= names@);
    assert(head =~= (if cask {
        seq![verb@, "--cask"@]
    } else {
        seq![verb@]
    }));
    args
}

/// Every name of one kind comes from a target of that kind.
proof fn lemma_names_of_kind(items: Seq<(Seq<char>, bool)>, cask: bool, k: int)
    requires
        0 <= k < names_of_kind(items, cask).len(),
    ensures
        exists|i: int|
            0 <= i < items.len() && items[i].1 == cask && #[trigger] items[i].0 == names_of_kind(
                items,
                cask,
            )[k],
    decreases items.len(),
{
    let rest = items.drop_last();
    if items.last().1 == cask && k == names_of_kind(items, cask).len() - 1 {
        assert(items[items.len() - 1].0 == names_of_kind(items, cask)[k]);
    } else {
        lemma_names_of_kind(rest, cask, k);
        let i = choose|i: int|
            0 <= i < rest.len() && rest[i].1 == cask && #[trigger] rest[i].0 == names_of_kind(
                rest,
                cask,
            )[k];
        assert(items[i] == rest[i]);
    }
}

/// Argument `k` of invocation `j` of a plan keeps to one kind: a `--cask`
/// invocation (the only one when there are no formulae, else the second)
/// has `--cask` first and names only casks after it; the other names only
/// formulae.
pub open spec fn argument_keeps_its_kind(verb: Seq<char>, items: Seq<(Seq<char>, bool)>, j: int, k: int) -> bool {
    let cmd = plan_spec(verb, items)[j];
    let cask = names_of_kind(items, false).len() == 0 || j == 1;
    let first = if cask {
        2int
    } else {
        1int
    };
    &&& cask ==> cmd[1] == "--cask"@
    &&& k >= first ==> exists|i: int|
        0 <= i < items.len() && items[i].1 == cask && #[trigger] items[i].0 == cmd[k]
}

/// Formulae and casks never share an invocation: every argument of every
/// invocation of a plan keeps to the kind of its invocation.
pub proof fn plan_keeps_formulae_and_casks_apart(verb: Seq<char>, items: Seq<(Seq<char>, bool)>)
    ensures
        forall|j: int, k: int|
            0 <= j < plan_spec(verb, items).len() && 1 <= k < plan_spec(verb, items)[j].len()
                ==> #[trigger] argument_keeps_its_kind(verb, items, j, k),
{
    let formulae = names_of_kind(items, false);
    let casks = names_of_kind(items, true);
    let p = plan_spec(verb, items);
    assert forall|j: int, k: int| 0 <= j < p.len() && 1 <= k < p[j].len() implies #[trigger] argument_keeps_its_kind(
        verb,
        items,
        j,
        k,
    ) by {
        let cask = formulae.len() == 0 || j == 1;
        if cask {
            assert(p[j] == seq![verb, "--cask"@] + casks);
            if k >= 2 {
                lemma_names_of_kind(items, true, k - 2);
            }
        } else {
            assert(p[j] == seq![verb] + formulae);
            lemma_names_of_kind(items, false, k - 1);
        }
    }
}

} // verus!
