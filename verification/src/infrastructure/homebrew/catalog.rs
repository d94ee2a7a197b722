//! Homebrew's catalog: the cache Homebrew keeps on disk, and the public API
//! as a fallback. What was read becomes packages here.
use super::backend::version_of;
use super::sorting::{lemma_sorted_empty_iff, sort_by_id, sorted_by_id_from};
use crate::application::store::package_views;
use crate::brew::CatalogEntry;
use crate::domain::package::{clean_description, Package, PackageId, PackageIdView, PackageKind, PackageView, UpdateState};
use crate::domain::Version;
use crate::infrastructure::InfrastructureError;
use crate::text::{owned, trimmed};
use vstd::prelude::*;

verus! {

/// Where Homebrew's public API serves formulae.
pub const FORMULA_API: &'static str = "https://formulae.brew.sh/api/formula.json";

/// Where Homebrew's public API serves casks.
pub const CASK_API: &'static str = "https://formulae.brew.sh/api/cask.json";

/// How many times a cache read or parse is tried.
pub const READ_ATTEMPTS: u32 = 3;

/// Reads Homebrew's package cache from a directory.
pub struct CacheCatalogProvider {
    cache_directory: String,
}

impl CacheCatalogProvider {
    /// The directory the provider reads.
    pub closed spec fn directory(&self) -> Seq<char> {
        self.cache_directory@
    }

    pub fn new(cache_directory: String) -> (r: CacheCatalogProvider)
        ensures
            r.directory() == cache_directory@,
    {
        CacheCatalogProvider { cache_directory }
    }

    pub fn cache_directory(&self) -> (r: &str)
        ensures
            r@ == self.directory(),
    {
        self.cache_directory.as_str()
    }
}

/// The package a catalog entry stands for; none for a blank name.
pub open spec fn catalog_package(e: CatalogEntry, kind: PackageKind) -> Option<PackageView> {
    if trimmed(e.name@).len() == 0 {
        None
    } else {
        Some(
            PackageView {
                id: PackageIdView { name: trimmed(e.name@), kind },
                installed: None,
                latest: version_of(
                    match e.version {
                        Some(v) => Some(v@),
                        None => None,
                    },
                ),
                description: clean_description(
                    match e.desc {
                        Some(d) => Some(d@),
                        None => None,
                    },
                ),
                update: UpdateState::Unknown,
                pinned: false,
            },
        )
    }
}

/// The packages of catalog entries of one kind, blank names skipped.
pub open spec fn catalog_packages_of(entries: Seq<CatalogEntry>, kind: PackageKind) -> Seq<PackageView>
    decreases entries.len(),
{
    if entries.len() == 0 {
        Seq::empty()
    } else {
        let rest = catalog_packages_of(entries.drop_last(), kind);
        match catalog_package(entries.last(), kind) {
            Some(p) => rest.push(p),
            None => rest,
        }
    }
}

fn push_entries(out: &mut Vec<Package>, entries: &Vec<CatalogEntry>, kind: PackageKind)
    ensures
        package_views(final(out)@) == package_views(old(out)@) + catalog_packages_of(entries@, kind),
{
    let ghost start = package_views(out@);
    let mut i: usize = 0;
    while i < entries.len()
        invariant
            i <= entries.len(),
            package_views(out@) == start + catalog_packages_of(entries@.take(i as int), kind),
        decreases entries.len() - i,
    {
        assert(entries@.take(i + 1).drop_last() =~= entries@.take(i as int));
        assert(entries@.take(i + 1).last() == entries@[i as int]);
        let e = &entries[i];
        match PackageId::new(e.name.as_str(), kind) {
            Some(id) => {
                let latest = match &e.version {
                    Some(v) => Version::new(v.as_str()),
                    None => None,
                };
                let description = match &e.desc {
                    Some(d) => Some(d.as_str()),
                    None => None,
                };
                let ghost before = package_views(out@);
                out.push(Package::catalog(id, latest, description));
                assert(package_views(out@) =~= before.push(catalog_package(entries@[i as int], kind)->0));
            },
            None => {},
        }
        i = i + 1;
    }
    assert(entries@.take(i as int) =~= entries@);
}

/// The packages of a catalog: formulae, then casks, blank names skipped,
/// sorted by id. A formula and a cask of one name stay two packages, each
/// with its own description.
pub fn catalog_packages(formulae: Vec<CatalogEntry>, casks: Vec<CatalogEntry>) -> (r: Vec<Package>)
    ensures
        sorted_by_id_from(
            package_views(r@),
            catalog_packages_of(formulae@, PackageKind::Formula) + catalog_packages_of(
                casks@,
                PackageKind::Cask,
            ),
        ),
{
    let mut packages: Vec<Package> = Vec::new();
    assert(package_views(packages@) =~= Seq::<PackageView>::empty());
    push_entries(&mut packages, &formulae, PackageKind::Formula);
    push_entries(&mut packages, &casks, PackageKind::Cask);
    assert(package_views(packages@) =~= catalog_packages_of(formulae@, PackageKind::Formula)
        + catalog_packages_of(casks@, PackageKind::Cask));
    sort_by_id(&mut packages);
    packages
}

/// What a parsed cache payload of `formulae` and `casks` comes to: no
/// catalog when it yields no package (no formulae or casks, or only blank
/// names), else its packages sorted by id.
pub open spec fn cache_outcome(
    formulae: Seq<CatalogEntry>,
    casks: Seq<CatalogEntry>,
    r: Result<Vec<Package>, InfrastructureError>,
) -> bool {
    let expected = catalog_packages_of(formulae, PackageKind::Formula) + catalog_packages_of(
        casks,
        PackageKind::Cask,
    );
    &&& expected.len() == 0 ==> (r matches Err(InfrastructureError::CatalogUnavailable { reason })
        && reason@ == "Homebrew's package cache contains no formulae or casks"@)
    &&& expected.len() > 0 ==> (r matches Ok(p) && sorted_by_id_from(package_views(p@), expected))
}

/// The packages of a parsed cache payload; a payload that yields no package
/// (no formulae or casks, or only blank names) is no catalog.
pub fn cache_packages(formulae: Vec<CatalogEntry>, casks: Vec<CatalogEntry>) -> (r: Result<Vec<Package>, InfrastructureError>)
    ensures
        cache_outcome(formulae@, casks@, r),
{
    let ghost expected = catalog_packages_of(formulae@, PackageKind::Formula) + catalog_packages_of(
        casks@,
        PackageKind::Cask,
    );
    let packages = catalog_packages(formulae, casks);
    proof {
        lemma_sorted_empty_iff(package_views(packages@), expected);
    }
    if packages.len() == 0 {
        return Err(
            InfrastructureError::CatalogUnavailable {
                reason: owned("Homebrew's package cache contains no formulae or casks"),
            },
        );
    }
    Ok(packages)
}

/// What follows one parse of the cache payload.
pub enum ParseStep {
    /// The load is over, with this outcome.
    Done(Result<Vec<Package>, InfrastructureError>),
    /// The payload did not parse: pause briefly, read and parse again.
    Retry,
}

/// Judge parse `attempt` (from 0) of the cache file at `path`: a payload
/// that parsed into `formulae` and `casks` ends the load with its packages;
/// one that did not is read again until `READ_ATTEMPTS` attempts have
/// failed, and then the catalog is malformed, with the last parse error.
pub fn after_parse(
    attempt: u32,
    path: String,
    parsed: Result<(Vec<CatalogEntry>, Vec<CatalogEntry>), String>,
) -> (r: ParseStep)
    requires
        attempt < READ_ATTEMPTS,
    ensures
        parsed matches Ok((f, c)) ==> (r matches ParseStep::Done(outcome) && cache_outcome(f@, c@, outcome)),
        parsed is Err && attempt + 1 < READ_ATTEMPTS ==> r is Retry,
        parsed matches Err(error) ==> (attempt + 1 == READ_ATTEMPTS ==> (r matches ParseStep::Done(
            Err(InfrastructureError::CatalogMalformed { path: p, source }),
        ) && p@ == path@ && source@ == error@)),
{
    match parsed {
        Ok((formulae, casks)) => ParseStep::Done(cache_packages(formulae, casks)),
        Err(error) => {
            if attempt + 1 < READ_ATTEMPTS {
                ParseStep::Retry
            } else {
                ParseStep::Done(Err(InfrastructureError::CatalogMalformed { path, source: error }))
            }
        },
    }
}

/// The packages of the public API's replies; both namespaces must be
/// present, or the catalog is incomplete.
pub fn api_packages(formulae: Vec<CatalogEntry>, casks: Vec<CatalogEntry>) -> (r: Result<Vec<Package>, InfrastructureError>)
    ensures
        formulae@.len() == 0 || casks@.len() == 0 ==> (r matches Err(
            InfrastructureError::CatalogUnavailable { reason },
        ) && reason@ == "Homebrew API returned an incomplete catalog"@),
        formulae@.len() > 0 && casks@.len() > 0 ==> (r matches Ok(p) && sorted_by_id_from(
            package_views(p@),
            catalog_packages_of(formulae@, PackageKind::Formula) + catalog_packages_of(
                casks@,
                PackageKind::Cask,
            ),
        )),
{
    if formulae.len() == 0 || casks.len() == 0 {
        return Err(
            InfrastructureError::CatalogUnavailable {
                reason: owned("Homebrew API returned an incomplete catalog"),
            },
        );
    }
    Ok(catalog_packages(formulae, casks))
}

/// What identifies the file read: device, inode, length, and the
/// modification time in nanoseconds from the Unix epoch where known.
#[derive(Clone, Copy, Debug, PartialEq, Eq, Structural)]
pub struct FileStamp {
    pub device: u64,
    pub inode: u64,
    pub len: u64,
    pub modified: Option<i128>,
}

/// A read is usable when the file did not change while it was read and all
/// of it was read.
pub fn read_is_stable(before: FileStamp, bytes_read: usize, after: FileStamp) -> (r: bool)
    ensures
        r == (before == after && bytes_read == after.len),
{
    let same_modified = match (before.modified, after.modified) {
        (Some(a), Some(b)) => a == b,
        (None, None) => true,
        _ => false,
    };
    before.device == after.device && before.inode == after.inode && before.len == after.len
        && same_modified && bytes_read as u64 == after.len
}

/// The failure after every read attempt saw the file replaced.
pub fn replaced_while_reading() -> (r: InfrastructureError)
    ensures
        r matches InfrastructureError::CatalogUnavailable { reason } && reason@
            == "Homebrew replaced its package cache while Kettle was reading it"@,
{
    InfrastructureError::CatalogUnavailable {
        reason: owned("Homebrew replaced its package cache while Kettle was reading it"),
    }
}

/// What follows one read of the cache file.
pub enum ReadStep {
    /// The file held still: these are its bytes.
    Accept(Vec<u8>),
    /// The file changed while it was read: pause briefly and read again.
    Retry,
    /// Every attempt saw the file change.
    GiveUp(InfrastructureError),
}

/// Judge read `attempt` (from 0) of the cache file, given the file's stamp
/// before and after it and the bytes read: a stable read is accepted, an
/// unstable one is retried until `READ_ATTEMPTS` reads have been made.
pub fn after_read(attempt: u32, before: FileStamp, bytes: Vec<u8>, after: FileStamp) -> (r: ReadStep)
    requires
        attempt < READ_ATTEMPTS,
    ensures
        (before == after && bytes@.len() == after.len) ==> r == ReadStep::Accept(bytes),
        !(before == after && bytes@.len() == after.len) && attempt + 1 < READ_ATTEMPTS ==> r is Retry,
        !(before == after && bytes@.len() == after.len) && attempt + 1 == READ_ATTEMPTS ==> (r matches ReadStep::GiveUp(
            InfrastructureError::CatalogUnavailable { reason },
        ) && reason@ == "Homebrew replaced its package cache while Kettle was reading it"@),
{
    if read_is_stable(before, bytes.len(), after) {
        ReadStep::Accept(bytes)
    } else if attempt + 1 < READ_ATTEMPTS {
        ReadStep::Retry
    } else {
        ReadStep::GiveUp(replaced_while_reading())
    }
}

/// The cache payload follows the first line, the signature header; a file
/// of one line has none.
pub fn payload_of(bytes: &[u8]) -> (r: &[u8])
    ensures
        (exists|i: int| 0 <= i < bytes@.len() && bytes@[i] == 10) ==> exists|i: int|
            0 <= i < bytes@.len() && bytes@[i] == 10 && (forall|j: int| 0 <= j < i ==> bytes@[j] != 10)
                && r@ == bytes@.subrange(i + 1, bytes@.len() as int),
        (forall|i: int| 0 <= i < bytes@.len() ==> bytes@[i] != 10) ==> r@.len() == 0,
{
    let mut i: usize = 0;
    while i < bytes.len()
        invariant
            i <= bytes.len(),
            forall|j: int| 0 <= j < i ==> bytes@[j] != 10,
        decreases bytes.len() - i,
    {
        if bytes[i] == 10u8 {
            let (_, rest) = bytes.split_at(i + 1);
            return rest;
        }
        i = i + 1;
    }
    let (_, rest) = bytes.split_at(bytes.len());
    rest
}

} // verus!
