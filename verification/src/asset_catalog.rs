use vstd::prelude::*;

use crate::assets::{LanguageAssetEntry, LanguageManifest, ThemeAssetEntry, ThemeManifest};
use crate::lexical::string_views;
use crate::text::str_eq;

verus! {

broadcast use vstd::string::group_string_axioms;

/// The position of the last entry among the first `n` whose id is `id`.
pub open spec fn last_language_with_id(entries: Seq<LanguageAssetEntry>, id: Seq<char>, n: int) -> Option<int>
    decreases n,
{
    if n <= 0 {
        None
    } else if entries[n - 1].id@ == id {
        Some(n - 1)
    } else {
        last_language_with_id(entries, id, n - 1)
    }
}

/// The position of the last entry among the first `n` that lists `alias`.
pub open spec fn last_language_with_alias(entries: Seq<LanguageAssetEntry>, alias: Seq<char>, n: int) -> Option<int>
    decreases n,
{
    if n <= 0 {
        None
    } else if string_views(entries[n - 1].aliases@).contains(alias) {
        Some(n - 1)
    } else {
        last_language_with_alias(entries, alias, n - 1)
    }
}

/// The position of the last entry among the first `n` whose id is `id`.
pub open spec fn last_theme_with_id(entries: Seq<ThemeAssetEntry>, id: Seq<char>, n: int) -> Option<int>
    decreases n,
{
    if n <= 0 {
        None
    } else if entries[n - 1].id@ == id {
        Some(n - 1)
    } else {
        last_theme_with_id(entries, id, n - 1)
    }
}

/// The language id that `requested` names: itself where an entry has that
/// id, else the id of the last entry that lists it as an alias.
pub open spec fn resolved_language_id(entries: Seq<LanguageAssetEntry>, requested: Seq<char>) -> Option<Seq<char>> {
    if last_language_with_id(entries, requested, entries.len() as int) is Some {
        Some(requested)
    } else {
        match last_language_with_alias(entries, requested, entries.len() as int) {
            Some(i) => Some(entries[i].id@),
            None => None,
        }
    }
}

/// The languages of a catalog, found by id or alias.  Where the manifest
/// lists an id or an alias twice, the later entry counts.
pub struct LanguageAssetCatalog {
    asset_dir: String,
    manifest: LanguageManifest,
}

/// The themes of a catalog, found by id.  Where the manifest lists an id
/// twice, the later entry counts.
pub struct ThemeAssetCatalog {
    asset_dir: String,
    manifest: ThemeManifest,
}

impl LanguageAssetCatalog {
    pub closed spec fn spec_manifest(&self) -> LanguageManifest {
        self.manifest
    }

    pub closed spec fn spec_asset_dir(&self) -> Seq<char> {
        self.asset_dir@
    }

    /// The catalog of the assets in `asset_dir` that `manifest` lists.
    pub fn from_manifest(asset_dir: String, manifest: LanguageManifest) -> (r: Self)
        ensures
            r.spec_manifest() == manifest,
            r.spec_asset_dir() == asset_dir@,
    {
        LanguageAssetCatalog { asset_dir, manifest }
    }

    /// The directory of the assets.
    pub fn asset_dir(&self) -> (r: &str)
        ensures
            r@ == self.spec_asset_dir(),
    {
        self.asset_dir.as_str()
    }

    /// The manifest of the catalog.
    pub fn manifest(&self) -> (r: &LanguageManifest)
        ensures
            *r == self.spec_manifest(),
    {
        &self.manifest
    }

    /// The id of the language that `requested` names, as an id or an alias.
    pub fn resolve_id(&self, requested: &str) -> (r: Option<&str>)
        ensures
            match r {
                Some(id) => resolved_language_id(self.spec_manifest().entries@, requested@) == Some(id@),
                None => resolved_language_id(self.spec_manifest().entries@, requested@) is None,
            },
    {
        let entries = &self.manifest.entries;
        let mut i = entries.len();
        while i > 0
            invariant
                *entries == self.manifest.entries,
                i <= entries.len(),
                last_language_with_id(entries@, requested@, entries.len() as int)
                    == last_language_with_id(entries@, requested@, i as int),
            decreases i,
        {
            if str_eq(entries[i - 1].id.as_str(), requested) {
                assert(last_language_with_id(entries@, requested@, i as int) == Some((i - 1) as int));
                return Some(entries[i - 1].id.as_str());
            }
            i -= 1;
        }
        let mut j = entries.len();
        while j > 0
            invariant
                *entries == self.manifest.entries,
                last_language_with_id(entries@, requested@, entries.len() as int) is None,
                j <= entries.len(),
                last_language_with_alias(entries@, requested@, entries.len() as int)
                    == last_language_with_alias(entries@, requested@, j as int),
            decreases j,
        {
            let aliases = &entries[j - 1].aliases;
            let mut k: usize = 0;
            while k < aliases.len()
                invariant
                    *entries == self.manifest.entries,
                    last_language_with_id(entries@, requested@, entries.len() as int) is None,
                    last_language_with_alias(entries@, requested@, entries.len() as int)
                        == last_language_with_alias(entries@, requested@, j as int),
                    0 < j <= entries.len(),
                    *aliases == entries@[j - 1].aliases,
                    k <= aliases.len(),
                    forall|m: int| 0 <= m < k ==> aliases@[m]@ != requested@,
                decreases aliases.len() - k,
            {
                if str_eq(aliases[k].as_str(), requested) {
                    assert(string_views(aliases@)[k as int] == requested@);
                    return Some(entries[j - 1].id.as_str());
                }
                k += 1;
            }
            assert forall|m: int| 0 <= m < aliases@.len() implies #[trigger] string_views(aliases@)[m]
                != requested@ by {}
            j -= 1;
        }
        None
    }

    /// The asset file of the language with id `id`.
    pub fn asset_file(&self, id: &str) -> (r: Option<&str>)
        ensures
            match r {
                Some(f) => match last_language_with_id(self.spec_manifest().entries@, id@, self.spec_manifest().entries.len() as int) {
                    Some(i) => f@ == self.spec_manifest().entries@[i].asset_file@,
                    None => false,
                },
                None => last_language_with_id(self.spec_manifest().entries@, id@, self.spec_manifest().entries.len() as int) is None,
            },
    {
        let entries = &self.manifest.entries;
        let mut i = entries.len();
        while i > 0
            invariant
                *entries == self.manifest.entries,
                i <= entries.len(),
                last_language_with_id(entries@, id@, entries.len() as int)
                    == last_language_with_id(entries@, id@, i as int),
            decreases i,
        {
            if str_eq(entries[i - 1].id.as_str(), id) {
                assert(last_language_with_id(entries@, id@, i as int) == Some((i - 1) as int));
                return Some(entries[i - 1].asset_file.as_str());
            }
            i -= 1;
        }
        None
    }
}

impl ThemeAssetCatalog {
    pub closed spec fn spec_manifest(&self) -> ThemeManifest {
        self.manifest
    }

    pub closed spec fn spec_asset_dir(&self) -> Seq<char> {
        self.asset_dir@
    }

    /// The catalog of the assets in `asset_dir` that `manifest` lists.
    pub fn from_manifest(asset_dir: String, manifest: ThemeManifest) -> (r: Self)
        ensures
            r.spec_manifest() == manifest,
            r.spec_asset_dir() == asset_dir@,
    {
        ThemeAssetCatalog { asset_dir, manifest }
    }

    /// The directory of the assets.
    pub fn asset_dir(&self) -> (r: &str)
        ensures
            r@ == self.spec_asset_dir(),
    {
        self.asset_dir.as_str()
    }

    /// The manifest of the catalog.
    pub fn manifest(&self) -> (r: &ThemeManifest)
        ensures
            *r == self.spec_manifest(),
    {
        &self.manifest
    }

    /// The asset file of the theme with id `id`.
    pub fn asset_file(&self, id: &str) -> (r: Option<&str>)
        ensures
            match r {
                Some(f) => match last_theme_with_id(self.spec_manifest().entries@, id@, self.spec_manifest().entries.len() as int) {
                    Some(i) => f@ == self.spec_manifest().entries@[i].asset_file@,
                    None => false,
                },
                None => last_theme_with_id(self.spec_manifest().entries@, id@, self.spec_manifest().entries.len() as int) is None,
            },
    {
        let entries = &self.manifest.entries;
        let mut i = entries.len();
        while i > 0
            invariant
                *entries == self.manifest.entries,
                i <= entries.len(),
                last_theme_with_id(entries@, id@, entries.len() as int)
                    == last_theme_with_id(entries@, id@, i as int),
            decreases i,
        {
            if str_eq(entries[i - 1].id.as_str(), id) {
                assert(last_theme_with_id(entries@, id@, i as int) == Some((i - 1) as int));
                return Some(entries[i - 1].asset_file.as_str());
            }
            i -= 1;
        }
        None
    }
}

} // verus!
