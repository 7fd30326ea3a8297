//! The collection orchestrator.
//!
//! The caller snapshots the virtual hierarchy — the root listing, each
//! filesystem's listing, and each entry's files — and a single pass turns
//! it into the full metric sequence of one scrape. Any error aborts the
//! whole collection: there are no partial results.

use vstd::prelude::*;
use crate::discover::strings_view;
use crate::discover::spec_device_entry;
use crate::discover::spec_discover_devices;
use crate::discover::spec_discover_filesystems;
use crate::discover::device_entry;
use crate::discover::discover_devices;
use crate::discover::discover_filesystems;
use crate::errors::CollectError;
use crate::errors::GCollectError;
use crate::errors::GDiscoveryError;
use crate::extract::DeviceFiles;
use crate::extract::GDeviceFiles;
use crate::extract::metrics_view;
use crate::extract::spec_extract;
use crate::extract::extract;
use crate::metric::Metric;
use crate::metric::GMetric;
use crate::metric::encode_metrics;
use crate::metric::encode_all;
use crate::outside::uuid_canonical_of;

verus! {

/// One entry of a filesystem directory's listing, with the files its
/// directory holds. Entries that are not devices carry whatever files the
/// caller found; extraction never looks at them.
pub struct DirEntry {
    pub name: String,
    pub files: DeviceFiles,
}

/// Mathematical form of one listing entry.
pub struct GDirEntry {
    pub name: Seq<char>,
    pub files: GDeviceFiles,
}

impl View for DirEntry {
    type V = GDirEntry;

    open spec fn view(&self) -> GDirEntry {
        GDirEntry { name: self.name@, files: self.files@ }
    }
}

/// One filesystem directory of the root listing: its name and its entries.
pub struct FsDir {
    pub name: String,
    pub entries: Vec<DirEntry>,
}

/// Mathematical form of one filesystem directory.
pub struct GFsDir {
    pub name: Seq<char>,
    pub entries: Seq<GDirEntry>,
}

impl View for FsDir {
    type V = GFsDir;

    open spec fn view(&self) -> GFsDir {
        GFsDir { name: self.name@, entries: self.entries@.map_values(|e: DirEntry| e@) }
    }
}

pub open spec fn dirs_view(ds: Seq<FsDir>) -> Seq<GFsDir> {
    ds.map_values(|d: FsDir| d@)
}

pub open spec fn entry_names(es: Seq<GDirEntry>) -> Seq<Seq<char>> {
    es.map_values(|e: GDirEntry| e.name)
}

pub open spec fn dir_names(ds: Seq<GFsDir>) -> Seq<Seq<char>> {
    ds.map_values(|d: GFsDir| d.name)
}

/// The metrics of one filesystem's entries, in listing order: device
/// entries are extracted under the filesystem's identifier, others are
/// skipped.
pub open spec fn spec_extract_entries(fs_id: Seq<char>, es: Seq<GDirEntry>) -> Result<
    Seq<GMetric>,
    GCollectError,
>
    decreases es.len(),
{
    if es.len() == 0 {
        Ok(Seq::empty())
    } else {
        match spec_device_entry(es[0].name) {
            Err(e) => Err(GCollectError::Discovery(e)),
            Ok(None) => spec_extract_entries(fs_id, es.skip(1)),
            Ok(Some(n)) => match spec_extract(fs_id, n, es[0].files) {
                Err(e) => Err(GCollectError::Extraction(e)),
                Ok(ms) => match spec_extract_entries(fs_id, es.skip(1)) {
                    Err(e) => Err(e),
                    Ok(rest) => Ok(ms + rest),
                },
            },
        }
    }
}

/// The metrics of one filesystem directory: its name must be a canonical
/// identifier, its devices are discovered first, then extracted in order.
pub open spec fn spec_fs_metrics(d: GFsDir) -> Result<Seq<GMetric>, GCollectError> {
    match uuid_canonical_of(d.name) {
        None => Err(
            GCollectError::Discovery(
                GDiscoveryError::MalformedIdentifier { name: d.name },
            ),
        ),
        Some(id) => match spec_discover_devices(entry_names(d.entries)) {
            Err(e) => Err(GCollectError::Discovery(e)),
            Ok(_ordinals) => spec_extract_entries(id, d.entries),
        },
    }
}

/// The concatenated metrics of the filesystem directories, in order.
pub open spec fn spec_collect_dirs(ds: Seq<GFsDir>) -> Result<Seq<GMetric>, GCollectError>
    decreases ds.len(),
{
    if ds.len() == 0 {
        Ok(Seq::empty())
    } else {
        match spec_fs_metrics(ds[0]) {
            Err(e) => Err(e),
            Ok(ms) => match spec_collect_dirs(ds.skip(1)) {
                Err(e) => Err(e),
                Ok(rest) => Ok(ms + rest),
            },
        }
    }
}

/// A whole collection pass: every root entry must name a filesystem, then
/// each filesystem's devices are discovered and extracted, concatenating
/// the metrics in discovery order.
pub open spec fn spec_collect(ds: Seq<GFsDir>) -> Result<Seq<GMetric>, GCollectError> {
    match spec_discover_filesystems(dir_names(ds)) {
        Err(e) => Err(GCollectError::Discovery(e)),
        Ok(_ids) => spec_collect_dirs(ds),
    }
}

/// The metrics of one filesystem's listing, under its canonical identifier.
fn collect_entries(fs_id: &str, entries: &Vec<DirEntry>) -> (r: Result<Vec<Metric>, CollectError>)
    ensures
        (match r {
            Ok(ms) => spec_extract_entries(fs_id@, entries@.map_values(|e: DirEntry| e@)) == Ok::<
                Seq<GMetric>,
                GCollectError,
            >(metrics_view(ms@)),
            Err(e) => spec_extract_entries(fs_id@, entries@.map_values(|e: DirEntry| e@)) == Err::<
                Seq<GMetric>,
                GCollectError,
            >(e@),
        }),
{
    let ghost esv = entries@.map_values(|e: DirEntry| e@);
    let mut out: Vec<Metric> = Vec::new();
    let mut i: usize = 0;
    proof {
        assert(esv.skip(0) =~= esv);
        if spec_extract_entries(fs_id@, esv) is Ok {
            assert(metrics_view(out@) + spec_extract_entries(fs_id@, esv)->Ok_0
                =~= spec_extract_entries(fs_id@, esv)->Ok_0);
        }
    }
    while i < entries.len()
        invariant
            i <= entries.len(),
            esv == entries@.map_values(|e: DirEntry| e@),
            esv.len() == entries@.len(),
            spec_extract_entries(fs_id@, esv) == (match spec_extract_entries(
                fs_id@,
                esv.skip(i as int),
            ) {
                Ok(rest) => Ok::<Seq<GMetric>, GCollectError>(metrics_view(out@) + rest),
                Err(e) => Err::<Seq<GMetric>, GCollectError>(e),
            }),
        decreases entries.len() - i,
    {
        proof {
            assert(esv.skip(i as int)[0] == entries@[i as int]@);
            assert(esv.skip(i as int).skip(1) =~= esv.skip(i as int + 1));
        }
        match device_entry(entries[i].name.as_str()) {
            Err(e) => {
                return Err(CollectError::Discovery(e));
            },
            Ok(None) => {},
            Ok(Some(n)) => {
                match extract(fs_id, n, &entries[i].files) {
                    Err(e) => {
                        return Err(CollectError::Extraction(e));
                    },
                    Ok(mut ms) => {
                        proof {
                            if spec_extract_entries(fs_id@, esv.skip(i as int + 1)) is Ok {
                                let rest = spec_extract_entries(
                                    fs_id@,
                                    esv.skip(i as int + 1),
                                )->Ok_0;
                                assert(metrics_view(out@ + ms@) =~= metrics_view(out@)
                                    + metrics_view(ms@));
                                assert(metrics_view(out@) + (metrics_view(ms@) + rest)
                                    =~= metrics_view(out@ + ms@) + rest);
                            }
                        }
                        out.append(&mut ms);
                    },
                }
            },
        }
        i = i + 1;
    }
    proof {
        assert(esv.skip(esv.len() as int).len() == 0);
        assert(metrics_view(out@) + Seq::<GMetric>::empty() =~= metrics_view(out@));
    }
    Ok(out)
}

/// Collects the full metric sequence of one scrape from a snapshot of the
/// root directory. An empty root yields the empty sequence; any discovery
/// or extraction error aborts the pass with no partial results.
pub fn collect_all(root: &Vec<FsDir>) -> (r: Result<Vec<Metric>, CollectError>)
    ensures
        (match r {
            Ok(ms) => spec_collect(dirs_view(root@)) == Ok::<Seq<GMetric>, GCollectError>(
                metrics_view(ms@),
            ),
            Err(e) => spec_collect(dirs_view(root@)) == Err::<Seq<GMetric>, GCollectError>(e@),
        }),
{
    let ghost dsv = dirs_view(root@);
    let mut names: Vec<String> = Vec::new();
    let mut k: usize = 0;
    while k < root.len()
        invariant
            k <= root.len(),
            dsv == dirs_view(root@),
            dsv.len() == root@.len(),
            names@.len() == k,
            forall|j: int| 0 <= j < k ==> names@[j]@ == dsv[j].name,
        decreases root.len() - k,
    {
        names.push(root[k].name.clone());
        k = k + 1;
    }
    proof {
        assert(strings_view(names@) =~= dir_names(dsv));
    }
    let ids = match discover_filesystems(&names) {
        Err(e) => {
            return Err(CollectError::Discovery(e));
        },
        Ok(ids) => ids,
    };
    proof {
        lemma_discovered_ids(dir_names(dsv), strings_view(ids@));
        assert forall|j: int| 0 <= j < dsv.len() implies uuid_canonical_of(dsv[j].name) == Some(
            ids@[j]@,
        ) by {
            assert(dir_names(dsv)[j] == dsv[j].name);
            assert(strings_view(ids@)[j] == ids@[j]@);
        }
    }
    let mut out: Vec<Metric> = Vec::new();
    let mut i: usize = 0;
    proof {
        assert(dsv.skip(0) =~= dsv);
        if spec_collect_dirs(dsv) is Ok {
            assert(metrics_view(out@) + spec_collect_dirs(dsv)->Ok_0 =~= spec_collect_dirs(
                dsv,
            )->Ok_0);
        }
    }
    while i < root.len()
        invariant
            i <= root.len(),
            dsv == dirs_view(root@),
            dsv.len() == root@.len(),
            ids@.len() == dsv.len(),
            spec_collect(dsv) == spec_collect_dirs(dsv),
            forall|j: int|
                0 <= j < dsv.len() ==> uuid_canonical_of(dsv[j].name) == Some(ids@[j]@),
            spec_collect_dirs(dsv) == (match spec_collect_dirs(dsv.skip(i as int)) {
                Ok(rest) => Ok::<Seq<GMetric>, GCollectError>(metrics_view(out@) + rest),
                Err(e) => Err::<Seq<GMetric>, GCollectError>(e),
            }),
        decreases root.len() - i,
    {
        proof {
            assert(dsv.skip(i as int)[0] == root@[i as int]@);
            assert(dsv.skip(i as int).skip(1) =~= dsv.skip(i as int + 1));
        }
        let dir = &root[i];
        let mut entry_name_vec: Vec<String> = Vec::new();
        let mut k2: usize = 0;
        let ghost esv = root@[i as int]@.entries;
        while k2 < dir.entries.len()
            invariant
                k2 <= dir.entries.len(),
                esv == root@[i as int]@.entries,
                esv == dir.entries@.map_values(|e: DirEntry| e@),
                esv.len() == dir.entries@.len(),
                entry_name_vec@.len() == k2,
                forall|j: int| 0 <= j < k2 ==> entry_name_vec@[j]@ == esv[j].name,
            decreases dir.entries.len() - k2,
        {
            entry_name_vec.push(dir.entries[k2].name.clone());
            k2 = k2 + 1;
        }
        proof {
            assert(strings_view(entry_name_vec@) =~= entry_names(esv));
        }
        match discover_devices(&entry_name_vec) {
            Err(e) => {
                return Err(CollectError::Discovery(e));
            },
            Ok(_) => {},
        }
        match collect_entries(ids[i].as_str(), &dir.entries) {
            Err(e) => {
                proof {
                    assert(spec_fs_metrics(dsv[i as int]) == Err::<Seq<GMetric>, GCollectError>(
                        e@,
                    ));
                }
                return Err(e);
            },
            Ok(mut ms) => {
                proof {
                    assert(spec_fs_metrics(dsv[i as int]) == Ok::<Seq<GMetric>, GCollectError>(
                        metrics_view(ms@),
                    ));
                    if spec_collect_dirs(dsv.skip(i as int + 1)) is Ok {
                        let rest = spec_collect_dirs(dsv.skip(i as int + 1))->Ok_0;
                        assert(metrics_view(out@ + ms@) =~= metrics_view(out@) + metrics_view(
                            ms@,
                        ));
                        assert(metrics_view(out@) + (metrics_view(ms@) + rest) =~= metrics_view(
                            out@ + ms@,
                        ) + rest);
                    }
                }
                out.append(&mut ms);
            },
        }
        i = i + 1;
    }
    proof {
        assert(dsv.skip(dsv.len() as int).len() == 0);
        assert(metrics_view(out@) + Seq::<GMetric>::empty() =~= metrics_view(out@));
    }
    Ok(out)
}

/// After a successful filesystem discovery, every root name parses and its
/// canonical identifier stands at its index.
proof fn lemma_discovered_ids(names: Seq<Seq<char>>, ids: Seq<Seq<char>>)
    requires
        spec_discover_filesystems(names) == Ok::<Seq<Seq<char>>, GDiscoveryError>(
            ids,
        ),
    ensures
        ids.len() == names.len(),
        forall|j: int| 0 <= j < names.len() ==> uuid_canonical_of(names[j]) == Some(ids[j]),
    decreases names.len(),
{
    if names.len() == 0 {
    } else {
        let rest_r = spec_discover_filesystems(names.skip(1));
        lemma_discovered_ids(names.skip(1), rest_r->Ok_0);
        assert forall|j: int| 0 <= j < names.len() implies uuid_canonical_of(names[j]) == Some(
            ids[j],
        ) by {
            if j > 0 {
                assert(names.skip(1)[j - 1] == names[j]);
                assert(ids[j] == rest_r->Ok_0[j - 1]);
            }
        }
    }
}

/// The body of one scrape response: the collected metrics encoded line by
/// line, or the collection's error.
pub fn scrape_body(root: &Vec<FsDir>) -> (r: Result<String, CollectError>)
    ensures
        (match r {
            Ok(body) => spec_collect(dirs_view(root@)) matches Ok(ms) && body@ == encode_metrics(
                ms,
            ),
            Err(e) => spec_collect(dirs_view(root@)) == Err::<Seq<GMetric>, GCollectError>(e@),
        }),
{
    match collect_all(root) {
        Ok(ms) => Ok(encode_all(&ms)),
        Err(e) => Err(e),
    }
}

} // verus!
