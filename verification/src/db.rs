//! The update cache: how a cached row reads back as an update.
use vstd::prelude::*;

use crate::package::{display_name_spec, PackageUpdate, PackageUpdateView, SourceType};

verus! {

/// The source a cached row names; an unknown name (written by another version) reads
/// as dnf.
pub open spec fn cached_source(name: Seq<char>) -> SourceType {
    if name == display_name_spec(SourceType::Flatpak) {
        SourceType::Flatpak
    } else if name == display_name_spec(SourceType::Apt) {
        SourceType::Apt
    } else {
        SourceType::Dnf
    }
}

/// A source written to the cache by its display name reads back as the same source.
pub proof fn lemma_cached_source_roundtrip(st: SourceType)
    ensures
        cached_source(display_name_spec(st)) == st,
{
    crate::package::lemma_display_names_distinct(st, SourceType::Flatpak);
    crate::package::lemma_display_names_distinct(st, SourceType::Apt);
}

/// An update without an arch, written to the cache as (display name of its source,
/// name, installed version, available version), reads back as the same update.
pub proof fn lemma_cache_row_roundtrip(u: PackageUpdateView)
    requires
        u.arch is None,
    ensures
        (PackageUpdateView {
            name: u.name,
            source: cached_source(display_name_spec(u.source)),
            arch: None,
            installed_version: u.installed_version,
            available_version: u.available_version,
        }) == u,
{
    lemma_cached_source_roundtrip(u.source);
}

/// The update of a cached row `(source, package_name, installed_version,
/// available_version)`; the cache keeps no arch.
pub fn row_to_update(source_str: String, name: String, installed: String, available: String) -> (r:
    PackageUpdate)
    ensures
        r@ == (PackageUpdateView {
            name: name@,
            source: cached_source(source_str@),
            arch: None,
            installed_version: installed@,
            available_version: available@,
        }),
{
    let ghost sv = source_str@;
    let parsed = SourceType::parse_name(source_str.as_str());
    proof {
        reveal_strlit("dnf");
        reveal_strlit("flatpak");
        reveal_strlit("apt");
        assert("dnf"@.len() == 3 && "flatpak"@.len() == 7 && "apt"@.len() == 3);
        assert("dnf"@[0] == 'd' && "apt"@[0] == 'a');
    }
    let source = match parsed {
        Ok(st) => {
            proof {
                assert(display_name_spec(st) == sv);
                match st {
                    SourceType::Dnf => {
                        assert(sv != "flatpak"@ && sv != "apt"@);
                    },
                    SourceType::Flatpak => {},
                    SourceType::Apt => {
                        assert(sv != "flatpak"@);
                    },
                }
            }
            st
        },
        Err(_) => {
            proof {
                assert(display_name_spec(SourceType::Flatpak) != sv);
                assert(display_name_spec(SourceType::Apt) != sv);
            }
            SourceType::Dnf
        },
    };
    proof {
        assert(source == cached_source(sv));
    }
    PackageUpdate { name, source, arch: None, installed_version: installed, available_version: available }
}

} // verus!
