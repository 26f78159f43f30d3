//! Reading a release archive and planning where each of its entries goes.
use vstd::prelude::*;

use crate::paths::named_components;
use crate::text::starts_with;
use crate::version::error::VersionManagerError;
use crate::version::installer::{
    components_after_first, entry_target, entry_target_spec, lemma_entry_target_under, HostOs,
};
use flate2::read::GzDecoder;
use std::io::Read;
use tar::Archive;

verus! {

/// What an archive entry is.
pub enum EntryKind {
    Dir,
    File,
    /// A symbolic link to the given target.
    Symlink(String),
}

/// The contents of an entry kind.
pub enum EntryKindView {
    Dir,
    File,
    Symlink(Seq<char>),
}

impl View for EntryKind {
    type V = EntryKindView;

    open spec fn view(&self) -> EntryKindView {
        match self {
            EntryKind::Dir => EntryKindView::Dir,
            EntryKind::File => EntryKindView::File,
            EntryKind::Symlink(t) => EntryKindView::Symlink(t@),
        }
    }
}

/// One entry of an archive as the reader gives it: its path in the archive,
/// whether it is a directory, whether it is a symbolic link and the link
/// target the header names, the bytes read from it, and its Unix permission
/// bits where the archive records them.
pub struct ArchiveEntry {
    pub path: String,
    pub dir: bool,
    pub symlink: bool,
    pub link: Option<String>,
    pub contents: Vec<u8>,
    pub mode: Option<u32>,
}

/// The contents of an archive entry.
pub struct ArchiveEntryView {
    pub path: Seq<char>,
    pub dir: bool,
    pub symlink: bool,
    pub link: Option<Seq<char>>,
    pub contents: Seq<u8>,
    pub mode: Option<u32>,
}

impl View for ArchiveEntry {
    type V = ArchiveEntryView;

    open spec fn view(&self) -> ArchiveEntryView {
        ArchiveEntryView {
            path: self.path@,
            dir: self.dir,
            symlink: self.symlink,
            link: match self.link {
                Some(l) => Some(l@),
                None => None,
            },
            contents: self.contents@,
            mode: self.mode,
        }
    }
}

/// What an entry is placed as: a directory; a symbolic link where the entry
/// is one and names its target; a file otherwise.
pub open spec fn entry_kind_spec(e: ArchiveEntryView) -> EntryKindView {
    if e.dir {
        EntryKindView::Dir
    } else if e.symlink && e.link is Some {
        EntryKindView::Symlink(e.link->0)
    } else {
        EntryKindView::File
    }
}

/// The contents of a list of entries.
pub open spec fn entries_view(es: Seq<ArchiveEntry>) -> Seq<ArchiveEntryView> {
    es.map_values(|e: ArchiveEntry| e@)
}

/// The entries of a gzip-compressed tar archive, in archive order, as the
/// `tar` and `flate2` crates read them, or the text of their error.
pub uninterp spec fn tar_gz_entries_of(data: Seq<u8>) -> Result<Seq<ArchiveEntryView>, Seq<char>>;

/// The entries of a zip archive, in archive order, as the `zip` crate reads
/// them, or the text of its error.
pub uninterp spec fn zip_entries_of(data: Seq<u8>) -> Result<Seq<ArchiveEntryView>, Seq<char>>;

/// `tar::Archive::entries` over a `flate2::read::GzDecoder` of the bytes:
/// for each entry, its `path`, whether its header's `entry_type` is a
/// directory or a symbolic link, its `link_name`, the bytes `read_to_end`
/// gives, and its header's `mode` where it can be read. Claimed: the outcome is a function of the
/// bytes alone (`tar_gz_entries_of`).
#[verifier::external_body]
fn tar_gz_entries(data: &[u8]) -> (r: Result<Vec<ArchiveEntry>, String>)
    ensures
        tar_gz_entries_of(data@) == match r {
            Ok(es) => Ok(entries_view(es@)),
            Err(m) => Err(m@),
        },
{
    let read = || {
        let mut out = Vec::new();
        for entry in Archive::new(GzDecoder::new(data)).entries()? {
            let (mut e, mut contents) = (entry?, Vec::new());
            e.read_to_end(&mut contents)?;
            let link = e.link_name()?.map(|l| l.to_string_lossy().into());
            let t = e.header().entry_type();
            out.push(ArchiveEntry { path: e.path()?.to_string_lossy().into(), dir: t.is_dir(), link,
                symlink: t.is_symlink(), contents, mode: e.header().mode().ok() });
        }
        Ok::<_, std::io::Error>(out)
    };
    read().map_err(|e| e.to_string())
}

/// `zip::ZipArchive::new` over the bytes, then `by_index` for each entry:
/// its `name`, whether `is_dir`, the bytes `read_to_end` gives, and its
/// `unix_mode`; no zip entry is taken as a symbolic link. Claimed: the
/// outcome is a function of the bytes alone (`zip_entries_of`).
#[verifier::external_body]
fn zip_entries(data: &[u8]) -> (r: Result<Vec<ArchiveEntry>, String>)
    ensures
        zip_entries_of(data@) == match r {
            Ok(es) => Ok(entries_view(es@)),
            Err(m) => Err(m@),
        },
{
    let z = |e: zip::result::ZipError| e.to_string();
    let mut archive = zip::ZipArchive::new(std::io::Cursor::new(data)).map_err(z)?;
    let mut out = Vec::new();
    for i in 0..archive.len() {
        let (mut e, mut contents) = (archive.by_index(i).map_err(z)?, Vec::new());
        e.read_to_end(&mut contents).map_err(|e| e.to_string())?;
        let (path, dir, mode) = (e.name().to_string(), e.is_dir(), e.unix_mode());
        out.push(ArchiveEntry { path, dir, symlink: false, link: None, contents, mode });
    }
    Ok(out)
}

/// The entries of a release archive for the host: a zip archive on
/// Windows, a gzip-compressed tar archive elsewhere.
pub open spec fn archive_entries_of(data: Seq<u8>, os: HostOs) -> Result<
    Seq<ArchiveEntryView>,
    Seq<char>,
> {
    match os {
        HostOs::Windows => zip_entries_of(data),
        _ => tar_gz_entries_of(data),
    }
}

/// Reads the entries of a downloaded release archive; an archive that cannot
/// be read is an I/O error with the reader's text.
pub fn read_archive(data: &[u8], os: HostOs) -> (r: Result<Vec<ArchiveEntry>, VersionManagerError>)
    ensures
        match archive_entries_of(data@, os) {
            Ok(es) => r matches Ok(got) && entries_view(got@) == es,
            Err(m) => r matches Err(VersionManagerError::Io(x)) && x@ == m,
        },
{
    let outcome = match os {
        HostOs::Windows => zip_entries(data),
        _ => tar_gz_entries(data),
    };
    match outcome {
        Ok(es) => Ok(es),
        Err(m) => Err(VersionManagerError::Io(m)),
    }
}

/// A placed entry: where it goes, its kind, its contents and its mode.
pub struct PlannedEntry {
    pub target: String,
    pub kind: EntryKind,
    pub contents: Vec<u8>,
    pub mode: Option<u32>,
}

/// The contents of a placed entry.
pub struct PlannedEntryView {
    pub target: Seq<char>,
    pub kind: EntryKindView,
    pub contents: Seq<u8>,
    pub mode: Option<u32>,
}

impl View for PlannedEntry {
    type V = PlannedEntryView;

    open spec fn view(&self) -> PlannedEntryView {
        PlannedEntryView {
            target: self.target@,
            kind: self.kind@,
            contents: self.contents@,
            mode: self.mode,
        }
    }
}

/// The entries that land under `version_dir`, in archive order, each at its
/// target; entries without a target (the top-level directory, entries with
/// a `..` component) are left out.
pub open spec fn extraction_plan_spec(version_dir: Seq<char>, es: Seq<ArchiveEntryView>) -> Seq<
    PlannedEntryView,
>
    decreases es.len(),
{
    if es.len() == 0 {
        Seq::empty()
    } else {
        let prev = extraction_plan_spec(version_dir, es.drop_last());
        let e = es.last();
        match entry_target_spec(version_dir, e.path) {
            Some(t) => prev.push(
                PlannedEntryView { target: t, kind: entry_kind_spec(e), contents: e.contents, mode: e.mode },
            ),
            None => prev,
        }
    }
}

/// A path lies under a directory: it starts with the directory, and its
/// named components are the directory's followed by at least one more,
/// none of them `..`.
pub open spec fn lies_under(p: Seq<char>, dir: Seq<char>) -> bool {
    let d = named_components(dir);
    let c = named_components(p);
    &&& starts_with(p, dir)
    &&& c.len() > d.len()
    &&& c.take(d.len() as int) == d
    &&& forall|k: int| d.len() <= k < c.len() ==> #[trigger] c[k] != seq!['.', '.']
}

/// Every entry of an extraction plan lies under the version's directory:
/// nothing an archive holds is placed outside it.
pub proof fn lemma_plan_stays_under(version_dir: Seq<char>, es: Seq<ArchiveEntryView>)
    ensures
        forall|i: int|
            0 <= i < extraction_plan_spec(version_dir, es).len() ==> lies_under(
                #[trigger] extraction_plan_spec(version_dir, es)[i].target,
                version_dir,
            ),
    decreases es.len(),
{
    if es.len() > 0 {
        lemma_plan_stays_under(version_dir, es.drop_last());
        let e = es.last();
        if entry_target_spec(version_dir, e.path) is Some {
            let t = entry_target_spec(version_dir, e.path)->0;
            lemma_entry_target_under(version_dir, e.path);
            let d = named_components(version_dir);
            let rest = components_after_first(e.path);
            assert(named_components(t).take(d.len() as int) =~= d);
            assert forall|k: int| d.len() <= k < named_components(t).len() implies #[trigger] named_components(
                t,
            )[k] != seq!['.', '.'] by {
                assert(named_components(t)[k] == rest[k - d.len()]);
            }
            assert(lies_under(t, version_dir));
        }
    }
}

/// What an entry is placed as.
fn entry_kind(e: &ArchiveEntry) -> (k: EntryKind)
    ensures
        k@ == entry_kind_spec(e@),
{
    if e.dir {
        EntryKind::Dir
    } else if e.symlink {
        match &e.link {
            Some(l) => EntryKind::Symlink(l.clone()),
            None => EntryKind::File,
        }
    } else {
        EntryKind::File
    }
}

fn copy_bytes(v: &Vec<u8>) -> (r: Vec<u8>)
    ensures
        r@ == v@,
{
    let r = v.clone();
    assert forall|i: int| 0 <= i < v@.len() implies r@[i] == v@[i] by {
        assert(cloned::<u8>(v[i], r[i]));
    }
    assert(r@ =~= v@);
    r
}

/// Where each entry of an archive goes under `version_dir`.
pub fn extraction_plan(version_dir: &str, entries: &Vec<ArchiveEntry>) -> (plan: Vec<PlannedEntry>)
    ensures
        plan@.map_values(|p: PlannedEntry| p@) == extraction_plan_spec(
            version_dir@,
            entries_view(entries@),
        ),
{
    let ghost ev = entries_view(entries@);
    let mut plan: Vec<PlannedEntry> = Vec::new();
    let mut i: usize = 0;
    while i < entries.len()
        invariant
            i <= entries@.len(),
            ev == entries_view(entries@),
            plan@.map_values(|p: PlannedEntry| p@) == extraction_plan_spec(
                version_dir@,
                ev.take(i as int),
            ),
        decreases entries.len() - i,
    {
        let e = &entries[i];
        assert(ev.take(i + 1).drop_last() =~= ev.take(i as int));
        assert(ev.take(i + 1).last() == e@);
        let ghost before = plan@.map_values(|p: PlannedEntry| p@);
        match entry_target(version_dir, e.path.as_str()) {
            Some(t) => {
                let p = PlannedEntry {
                    target: t,
                    kind: entry_kind(e),
                    contents: copy_bytes(&e.contents),
                    mode: e.mode,
                };
                let ghost pv = p@;
                plan.push(p);
                assert(plan@.map_values(|p: PlannedEntry| p@) =~= before.push(pv));
            },
            None => {},
        }
        i += 1;
    }
    assert(ev.take(entries@.len() as int) =~= ev);
    plan
}

/// The planned entries of a downloaded archive for `version_dir`, or why
/// the archive cannot be read.
pub fn plan_extraction(version_dir: &str, data: &[u8], os: HostOs) -> (r: Result<
    Vec<PlannedEntry>,
    VersionManagerError,
>)
    ensures
        match archive_entries_of(data@, os) {
            Ok(es) => r matches Ok(plan) && plan@.map_values(|p: PlannedEntry| p@)
                == extraction_plan_spec(version_dir@, es),
            Err(m) => r matches Err(VersionManagerError::Io(x)) && x@ == m,
        },
{
    let entries = read_archive(data, os)?;
    Ok(extraction_plan(version_dir, &entries))
}

} // verus!
