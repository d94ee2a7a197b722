use crate::domain::version::Version;
use crate::order::{is_sign, is_total_order, lemma_lex, lex, lex_sign, then};
use crate::sign::{ordering_of, ordering_sign};
use crate::text::{owned, trim, trimmed};
use std::cmp::Ordering;
use vstd::prelude::*;
use vstd::string::StringSliceAdditionalSpecFns;
use vstd::utf8::encode_utf8;

verus! {

/// The two Homebrew namespaces. A formula and a cask may share a name.
#[derive(Clone, Copy, Debug, PartialEq, Eq, Structural, Hash, PartialOrd, Ord)]
pub enum PackageKind {
    Formula,
    Cask,
}

impl PackageKind {
    pub fn label(self) -> (s: &'static str)
        ensures
            self == PackageKind::Formula ==> s@ == "formula"@,
            self == PackageKind::Cask ==> s@ == "cask"@,
    {
        match self {
            PackageKind::Formula => "formula",
            PackageKind::Cask => "cask",
        }
    }
}

/// Formulae sort before casks.
pub open spec fn kind_order(a: PackageKind, b: PackageKind) -> int {
    if a == b {
        0
    } else if a == PackageKind::Formula {
        -1
    } else {
        1
    }
}

/// A non-empty, trimmed package name.
#[derive(Debug, PartialEq, Eq, Hash, PartialOrd, Ord)]
pub struct PackageName(String);

impl View for PackageName {
    type V = Seq<char>;

    closed spec fn view(&self) -> Seq<char> {
        self.0@
    }
}

impl Clone for PackageName {
    fn clone(&self) -> (r: Self)
        ensures
            r@ == self@,
    {
        PackageName(self.0.clone())
    }
}

impl PackageName {
    /// A name from `value` without surrounding white space; `None` where
    /// nothing is left.
    pub fn new(value: &str) -> (r: Option<PackageName>)
        ensures
            r is Some <==> trimmed(value@).len() > 0,
            r matches Some(n) ==> n@ == trimmed(value@),
    {
        let t = trim(value);
        if t.is_empty() {
            None
        } else {
            Some(PackageName(owned(t)))
        }
    }

    pub fn as_str(&self) -> (r: &str)
        ensures
            r@ == self@,
    {
        self.0.as_str()
    }
}

/// What identifies a package: its name and its namespace.
pub struct PackageIdView {
    pub name: Seq<char>,
    pub kind: PackageKind,
}

/// The canonical package identity: `(name, kind)`. Maps, overlays, selection,
/// search and command plans all key on the complete identity.
#[derive(Debug, PartialEq, Eq, Hash, PartialOrd, Ord)]
pub struct PackageId {
    name: PackageName,
    kind: PackageKind,
}

impl View for PackageId {
    type V = PackageIdView;

    closed spec fn view(&self) -> PackageIdView {
        PackageIdView { name: self.name@, kind: self.kind }
    }
}

impl Clone for PackageId {
    fn clone(&self) -> (r: Self)
        ensures
            r@ == self@,
    {
        PackageId { name: self.name.clone(), kind: self.kind }
    }
}

/// The order of package ids: by name (as bytes, as `str` orders them), then
/// formulae before casks.
pub open spec fn id_order(a: PackageIdView, b: PackageIdView) -> int {
    then(lex(encode_utf8(a.name), encode_utf8(b.name)), kind_order(a.kind, b.kind))
}

pub open spec fn id_order_fn() -> spec_fn(PackageIdView, PackageIdView) -> int {
    |a: PackageIdView, b: PackageIdView| id_order(a, b)
}

/// Facts about `id_order` on three ids.
pub proof fn lemma_id_order(a: PackageIdView, b: PackageIdView, c: PackageIdView)
    ensures
        id_order(a, b) == -id_order(b, a),
        is_sign(id_order(a, b)),
        id_order(a, b) == 0 <==> a == b,
        id_order(a, b) < 0 && id_order(b, c) < 0 ==> id_order(a, c) < 0,
        id_order(a, b) <= 0 && id_order(b, c) <= 0 ==> id_order(a, c) <= 0,
{
    let (x, y, z) = (encode_utf8(a.name), encode_utf8(b.name), encode_utf8(c.name));
    lemma_lex(x, y, z);
    lemma_lex(x, z, y);
    lemma_lex(y, z, x);
    if id_order(a, b) == 0 {
        vstd::utf8::encode_utf8_decode_utf8(a.name);
        vstd::utf8::encode_utf8_decode_utf8(b.name);
    }
    if id_order(a, b) <= 0 && id_order(b, c) <= 0 && id_order(a, b) == 0 {
        vstd::utf8::encode_utf8_decode_utf8(a.name);
        vstd::utf8::encode_utf8_decode_utf8(b.name);
    }
    if id_order(b, c) == 0 {
        vstd::utf8::encode_utf8_decode_utf8(b.name);
        vstd::utf8::encode_utf8_decode_utf8(c.name);
    }
}

/// Package ids are strictly totally ordered, ties only between equal ids.
pub proof fn package_id_order_is_total()
    ensures
        is_total_order(id_order_fn()),
{
    let f = id_order_fn();
    assert forall|a: PackageIdView, b: PackageIdView| #[trigger] f(a, b) == -f(b, a) && is_sign(
        f(a, b),
    ) && (f(a, b) == 0 <==> a == b) by {
        lemma_id_order(a, b, a);
    }
    assert forall|a: PackageIdView, b: PackageIdView, c: PackageIdView|
        #[trigger] f(a, b) < 0 && #[trigger] f(b, c) < 0 implies f(a, c) < 0 by {
        lemma_id_order(a, b, c);
    }
}

impl PackageId {
    /// An id from a name and a kind; `None` where the name is blank.
    pub fn new(name: &str, kind: PackageKind) -> (r: Option<PackageId>)
        ensures
            r is Some <==> trimmed(name@).len() > 0,
            r matches Some(id) ==> id@ == (PackageIdView { name: trimmed(name@), kind }),
    {
        match PackageName::new(name) {
            Some(n) => Some(PackageId { name: n, kind }),
            None => None,
        }
    }

    pub fn name(&self) -> (r: &PackageName)
        ensures
            r@ == self@.name,
    {
        &self.name
    }

    pub fn kind(&self) -> (r: PackageKind)
        ensures
            r == self@.kind,
    {
        self.kind
    }

    /// Ids ordered by name, then formulae before casks, as -1, 0 or 1.
    pub fn order_sign(&self, other: &PackageId) -> (r: i8)
        ensures
            r == id_order(self@, other@),
    {
        let a = self.name.0.as_str();
        let b = other.name.0.as_str();
        let s = lex_sign(a.as_bytes(), b.as_bytes());
        proof {
            lemma_lex(a.spec_bytes(), b.spec_bytes(), a.spec_bytes());
        }
        if s != 0 {
            s
        } else if self.kind == other.kind {
            0
        } else if self.kind == PackageKind::Formula {
            -1
        } else {
            1
        }
    }

    /// Ids ordered by name, then formulae before casks.
    pub fn compare(&self, other: &PackageId) -> (o: Ordering)
        ensures
            ordering_sign(o) == id_order(self@, other@),
    {
        proof {
            lemma_id_order(self@, other@, self@);
        }
        ordering_of(self.order_sign(other))
    }

    /// Whether two ids are the same package.
    pub fn same(&self, other: &PackageId) -> (r: bool)
        ensures
            r == (self@ == other@),
    {
        self.kind == other.kind && self.name.0 == other.name.0
    }
}

/// Whether a package's update state is known.
#[derive(Clone, Copy, Debug, PartialEq, Eq, Structural)]
pub enum UpdateState {
    Unknown,
    Current,
    UpdateAvailable,
}

impl Default for UpdateState {
    fn default() -> (r: UpdateState)
        ensures
            r == UpdateState::Unknown,
    {
        UpdateState::Unknown
    }
}

pub struct PackageView {
    pub id: PackageIdView,
    pub installed: Option<Seq<char>>,
    pub latest: Option<Seq<char>>,
    pub description: Option<Seq<char>>,
    pub update: UpdateState,
    pub pinned: bool,
}

pub open spec fn version_view(v: Option<Version>) -> Option<Seq<char>> {
    match v {
        Some(v) => Some(v@),
        None => None,
    }
}

pub open spec fn text_view(v: Option<String>) -> Option<Seq<char>> {
    match v {
        Some(v) => Some(v@),
        None => None,
    }
}

/// A package as the app shows it: identity, versions, description, update
/// state, pin.
#[derive(Debug, PartialEq, Eq)]
pub struct Package {
    id: PackageId,
    installed: Option<Version>,
    latest: Option<Version>,
    description: Option<String>,
    update: UpdateState,
    pinned: bool,
}

impl View for Package {
    type V = PackageView;

    closed spec fn view(&self) -> PackageView {
        PackageView {
            id: self.id@,
            installed: version_view(self.installed),
            latest: version_view(self.latest),
            description: text_view(self.description),
            update: self.update,
            pinned: self.pinned,
        }
    }
}

fn clone_version(v: &Option<Version>) -> (r: Option<Version>)
    ensures
        version_view(r) == version_view(*v),
{
    match v {
        Some(v) => Some(v.clone()),
        None => None,
    }
}

fn clone_text(v: &Option<String>) -> (r: Option<String>)
    ensures
        text_view(r) == text_view(*v),
{
    match v {
        Some(v) => Some(v.clone()),
        None => None,
    }
}

impl Clone for Package {
    fn clone(&self) -> (r: Self)
        ensures
            r@ == self@,
    {
        Package {
            id: self.id.clone(),
            installed: clone_version(&self.installed),
            latest: clone_version(&self.latest),
            description: clone_text(&self.description),
            update: self.update,
            pinned: self.pinned,
        }
    }
}

/// A description without surrounding white space; blank means absent.
pub open spec fn clean_description(d: Option<Seq<char>>) -> Option<Seq<char>> {
    match d {
        Some(t) => if trimmed(t).len() > 0 {
            Some(trimmed(t))
        } else {
            None
        },
        None => None,
    }
}

/// The update state implied by versions alone: current exactly when the
/// installed and latest versions are both known and equal.
pub open spec fn reconciled(installed: Option<Seq<char>>, latest: Option<Seq<char>>) -> UpdateState {
    match (installed, latest) {
        (Some(i), Some(l)) => if i == l {
            UpdateState::Current
        } else {
            UpdateState::Unknown
        },
        _ => UpdateState::Unknown,
    }
}

/// `current` after a catalog entry for the same package is laid over it.
pub open spec fn merged_catalog(current: PackageView, other: PackageView) -> PackageView {
    PackageView {
        latest: other.latest,
        description: other.description,
        update: reconciled(current.installed, other.latest),
        ..current
    }
}

/// `current` after an installed entry for the same package is laid over it.
pub open spec fn merged_installed(current: PackageView, other: PackageView) -> PackageView {
    PackageView {
        installed: other.installed,
        pinned: other.pinned,
        update: reconciled(other.installed, current.latest),
        ..current
    }
}

/// `current` after an outdated entry for the same package is laid over it:
/// Homebrew's outdated report is authoritative.
pub open spec fn merged_outdated(current: PackageView, other: PackageView) -> PackageView {
    PackageView {
        installed: other.installed,
        latest: other.latest,
        pinned: other.pinned,
        update: UpdateState::UpdateAvailable,
        ..current
    }
}

fn versions_equal(a: &Option<Version>, b: &Option<Version>) -> (r: bool)
    ensures
        r == (reconciled(version_view(*a), version_view(*b)) == UpdateState::Current),
{
    match (a, b) {
        (Some(x), Some(y)) => x.same(y),
        _ => false,
    }
}

impl Package {
    /// A catalog entry: latest version and description, nothing installed.
    pub fn catalog(id: PackageId, latest: Option<Version>, description: Option<&str>) -> (r:
        Package)
        ensures
            r@ == (PackageView {
                id: id@,
                installed: None,
                latest: version_view(latest),
                description: clean_description(
                    match description {
                        Some(d) => Some(d@),
                        None => None,
                    },
                ),
                update: UpdateState::Unknown,
                pinned: false,
            }),
    {
        let description = match description {
            Some(d) => {
                let t = trim(d);
                if t.is_empty() {
                    None
                } else {
                    Some(owned(t))
                }
            },
            None => None,
        };
        Package {
            id,
            installed: None,
            latest,
            description,
            update: UpdateState::Unknown,
            pinned: false,
        }
    }

    /// An installed package as found on disk.
    pub fn installed(id: PackageId, installed: Option<Version>, pinned: bool) -> (r: Package)
        ensures
            r@ == (PackageView {
                id: id@,
                installed: version_view(installed),
                latest: None,
                description: None,
                update: UpdateState::Unknown,
                pinned,
            }),
    {
        Package { id, installed, latest: None, description: None, update: UpdateState::Unknown, pinned }
    }

    /// A package that Homebrew reports as outdated.
    pub fn outdated(
        id: PackageId,
        installed: Option<Version>,
        latest: Option<Version>,
        pinned: bool,
    ) -> (r: Package)
        ensures
            r@ == (PackageView {
                id: id@,
                installed: version_view(installed),
                latest: version_view(latest),
                description: None,
                update: UpdateState::UpdateAvailable,
                pinned,
            }),
    {
        Package { id, installed, latest, description: None, update: UpdateState::UpdateAvailable, pinned }
    }

    pub fn id(&self) -> (r: &PackageId)
        ensures
            r@ == self@.id,
    {
        &self.id
    }

    pub fn installed_version(&self) -> (r: Option<&Version>)
        ensures
            match r {
                Some(v) => self@.installed == Some(v@),
                None => self@.installed is None,
            },
    {
        match &self.installed {
            Some(v) => Some(v),
            None => None,
        }
    }

    pub fn latest_version(&self) -> (r: Option<&Version>)
        ensures
            match r {
                Some(v) => self@.latest == Some(v@),
                None => self@.latest is None,
            },
    {
        match &self.latest {
            Some(v) => Some(v),
            None => None,
        }
    }

    pub fn description(&self) -> (r: Option<&str>)
        ensures
            match r {
                Some(d) => self@.description == Some(d@),
                None => self@.description is None,
            },
    {
        match &self.description {
            Some(d) => Some(d.as_str()),
            None => None,
        }
    }

    pub fn update_state(&self) -> (r: UpdateState)
        ensures
            r == self@.update,
    {
        self.update
    }

    pub fn is_pinned(&self) -> (r: bool)
        ensures
            r == self@.pinned,
    {
        self.pinned
    }

    pub fn is_installed(&self) -> (r: bool)
        ensures
            r == self@.installed is Some,
    {
        self.installed.is_some()
    }

    /// Lay a catalog entry for the same package over this one.
    pub fn merge_catalog(&mut self, other: &Package)
        requires
            old(self)@.id == other@.id,
        ensures
            final(self)@ == merged_catalog(old(self)@, other@),
    {
        self.latest = clone_version(&other.latest);
        self.description = clone_text(&other.description);
        self.reconcile_versions();
    }

    /// Lay an installed entry for the same package over this one.
    pub fn merge_installed(&mut self, other: &Package)
        requires
            old(self)@.id == other@.id,
        ensures
            final(self)@ == merged_installed(old(self)@, other@),
    {
        self.installed = clone_version(&other.installed);
        self.pinned = other.pinned;
        self.reconcile_versions();
    }

    /// Lay an outdated entry for the same package over this one.
    pub fn merge_outdated(&mut self, other: &Package)
        requires
            old(self)@.id == other@.id,
        ensures
            final(self)@ == merged_outdated(old(self)@, other@),
    {
        self.installed = clone_version(&other.installed);
        self.latest = clone_version(&other.latest);
        self.pinned = other.pinned;
        self.update = UpdateState::UpdateAvailable;
    }

    fn reconcile_versions(&mut self)
        ensures
            final(self)@ == (PackageView {
                update: reconciled(old(self)@.installed, old(self)@.latest),
                ..old(self)@
            }),
    {
        self.update = if versions_equal(&self.installed, &self.latest) {
            UpdateState::Current
        } else {
            UpdateState::Unknown
        };
    }
}

} // verus!
