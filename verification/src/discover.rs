//! Discovery of filesystem instances and their devices from directory
//! listings.
//!
//! The callers list the directories; this module only judges the entry
//! names. Every root entry must spell a canonical filesystem identifier.
//! Under one filesystem, entries named `dev-<N>` are devices with ordinal
//! `N`; other entries are silently skipped; a `dev-` entry whose suffix is
//! not a non-negative integer is an error, since the naming convention
//! matched but the payload is invalid.

use vstd::prelude::*;
use crate::errors::DiscoveryError;
use crate::errors::GDiscoveryError;
use crate::numbers::is_u64_str;
use crate::numbers::uint_val;
use crate::numbers::parse_u64;
use crate::outside::uuid_canonical_of;
use crate::outside::parse_uuid_canonical;
use crate::text::str_to_chars;
use crate::text::chars_subrange;

verus! {

/// The views of a sequence of strings.
pub open spec fn strings_view(s: Seq<String>) -> Seq<Seq<char>> {
    s.map_values(|x: String| x@)
}

/// Whether an entry name matches the device naming convention `dev-...`.
pub open spec fn has_dev_prefix(name: Seq<char>) -> bool {
    name.len() >= 4 && name[0] == 'd' && name[1] == 'e' && name[2] == 'v' && name[3] == '-'
}

/// What one entry under a filesystem directory means: not a device, a
/// device with its ordinal, or a malformed device name.
pub open spec fn spec_device_entry(name: Seq<char>) -> Result<Option<u64>, GDiscoveryError> {
    if !has_dev_prefix(name) {
        Ok(None)
    } else if is_u64_str(name.skip(4)) {
        Ok(Some(uint_val(name.skip(4)) as u64))
    } else {
        Err(GDiscoveryError::MalformedDeviceName { name })
    }
}

/// The device ordinals named by a directory listing, in listing order.
pub open spec fn spec_discover_devices(names: Seq<Seq<char>>) -> Result<Seq<u64>, GDiscoveryError>
    decreases names.len(),
{
    if names.len() == 0 {
        Ok(Seq::empty())
    } else {
        match spec_device_entry(names[0]) {
            Err(e) => Err(e),
            Ok(None) => spec_discover_devices(names.skip(1)),
            Ok(Some(n)) => match spec_discover_devices(names.skip(1)) {
                Err(e) => Err(e),
                Ok(rest) => Ok(seq![n] + rest),
            },
        }
    }
}

/// The canonical identifiers named by the root listing; the first entry
/// that does not parse aborts the discovery.
pub open spec fn spec_discover_filesystems(names: Seq<Seq<char>>) -> Result<
    Seq<Seq<char>>,
    GDiscoveryError,
>
    decreases names.len(),
{
    if names.len() == 0 {
        Ok(Seq::empty())
    } else {
        match uuid_canonical_of(names[0]) {
            None => Err(GDiscoveryError::MalformedIdentifier { name: names[0] }),
            Some(id) => match spec_discover_filesystems(names.skip(1)) {
                Err(e) => Err(e),
                Ok(rest) => Ok(seq![id] + rest),
            },
        }
    }
}

/// Judges one entry name under a filesystem directory.
pub fn device_entry(name: &str) -> (r: Result<Option<u64>, DiscoveryError>)
    ensures
        (match r {
            Ok(None) => spec_device_entry(name@) == Ok::<Option<u64>, GDiscoveryError>(None),
            Ok(Some(n)) => spec_device_entry(name@) == Ok::<Option<u64>, GDiscoveryError>(Some(n)),
            Err(e) => spec_device_entry(name@) == Err::<Option<u64>, GDiscoveryError>(e@),
        }),
{
    let v = str_to_chars(name);
    if v.len() < 4 || v[0] != 'd' || v[1] != 'e' || v[2] != 'v' || v[3] != '-' {
        return Ok(None);
    }
    let suffix = chars_subrange(&v, 4, v.len());
    proof {
        assert(suffix@ =~= name@.skip(4));
    }
    match parse_u64(&suffix) {
        Some(n) => Ok(Some(n)),
        None => Err(DiscoveryError::MalformedDeviceName { name: name.to_owned() }),
    }
}

/// The device ordinals in one filesystem's directory listing.
pub fn discover_devices(entries: &Vec<String>) -> (r: Result<Vec<u64>, DiscoveryError>)
    ensures
        (match r {
            Ok(ns) => spec_discover_devices(strings_view(entries@)) == Ok::<
                Seq<u64>,
                GDiscoveryError,
            >(ns@),
            Err(e) => spec_discover_devices(strings_view(entries@)) == Err::<
                Seq<u64>,
                GDiscoveryError,
            >(e@),
        }),
{
    let ghost nsv = strings_view(entries@);
    let mut out: Vec<u64> = Vec::new();
    let mut i: usize = 0;
    proof {
        assert(nsv.skip(0) =~= nsv);
        if spec_discover_devices(nsv) is Ok {
            assert(out@ + spec_discover_devices(nsv)->Ok_0 =~= spec_discover_devices(nsv)->Ok_0);
        }
    }
    while i < entries.len()
        invariant
            i <= entries.len(),
            nsv == strings_view(entries@),
            nsv.len() == entries@.len(),
            spec_discover_devices(nsv) == (match spec_discover_devices(nsv.skip(i as int)) {
                Ok(rest) => Ok::<Seq<u64>, GDiscoveryError>(out@ + rest),
                Err(e) => Err::<Seq<u64>, GDiscoveryError>(e),
            }),
        decreases entries.len() - i,
    {
        proof {
            assert(nsv.skip(i as int)[0] == entries@[i as int]@);
            assert(nsv.skip(i as int).skip(1) =~= nsv.skip(i as int + 1));
        }
        match device_entry(entries[i].as_str()) {
            Err(e) => {
                return Err(e);
            },
            Ok(None) => {},
            Ok(Some(n)) => {
                proof {
                    if spec_discover_devices(nsv.skip(i as int + 1)) is Ok {
                        let rest = spec_discover_devices(nsv.skip(i as int + 1))->Ok_0;
                        assert(out@ + (seq![n] + rest) =~= out@.push(n) + rest);
                    }
                }
                out.push(n);
            },
        }
        i = i + 1;
    }
    proof {
        assert(nsv.skip(nsv.len() as int).len() == 0);
        assert(out@ + Seq::<u64>::empty() =~= out@);
    }
    Ok(out)
}

/// The canonical filesystem identifiers in the root listing, in listing
/// order. The first malformed entry aborts with `MalformedIdentifier`.
pub fn discover_filesystems(entries: &Vec<String>) -> (r: Result<Vec<String>, DiscoveryError>)
    ensures
        (match r {
            Ok(ids) => spec_discover_filesystems(strings_view(entries@)) == Ok::<
                Seq<Seq<char>>,
                GDiscoveryError,
            >(strings_view(ids@)),
            Err(e) => spec_discover_filesystems(strings_view(entries@)) == Err::<
                Seq<Seq<char>>,
                GDiscoveryError,
            >(e@),
        }),
{
    let ghost nsv = strings_view(entries@);
    let mut out: Vec<String> = Vec::new();
    let mut i: usize = 0;
    proof {
        assert(nsv.skip(0) =~= nsv);
        if spec_discover_filesystems(nsv) is Ok {
            assert(strings_view(out@) + spec_discover_filesystems(nsv)->Ok_0
                =~= spec_discover_filesystems(nsv)->Ok_0);
        }
    }
    while i < entries.len()
        invariant
            i <= entries.len(),
            nsv == strings_view(entries@),
            nsv.len() == entries@.len(),
            spec_discover_filesystems(nsv) == (match spec_discover_filesystems(
                nsv.skip(i as int),
            ) {
                Ok(rest) => Ok::<Seq<Seq<char>>, GDiscoveryError>(strings_view(out@) + rest),
                Err(e) => Err::<Seq<Seq<char>>, GDiscoveryError>(e),
            }),
        decreases entries.len() - i,
    {
        proof {
            assert(nsv.skip(i as int)[0] == entries@[i as int]@);
            assert(nsv.skip(i as int).skip(1) =~= nsv.skip(i as int + 1));
        }
        match parse_uuid_canonical(entries[i].as_str()) {
            None => {
                return Err(
                    DiscoveryError::MalformedIdentifier { name: entries[i].as_str().to_owned() },
                );
            },
            Some(id) => {
                proof {
                    if spec_discover_filesystems(nsv.skip(i as int + 1)) is Ok {
                        let rest = spec_discover_filesystems(nsv.skip(i as int + 1))->Ok_0;
                        assert(strings_view(out@.push(id)) =~= strings_view(out@).push(id@));
                        assert(strings_view(out@) + (seq![id@] + rest) =~= strings_view(
                            out@.push(id),
                        ) + rest);
                    }
                }
                out.push(id);
            },
        }
        i = i + 1;
    }
    proof {
        assert(nsv.skip(nsv.len() as int).len() == 0);
        assert(strings_view(out@) + Seq::<Seq<char>>::empty() =~= strings_view(out@));
    }
    Ok(out)
}

} // verus!
