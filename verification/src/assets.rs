use vstd::prelude::*;

use crate::lexical::{is_stable_order, sort_by_key, sorted_by_key, stable_order, stable_reordering, string_views, Keyed};
use crate::text::{chars_of, copy_opt_string, copy_string, copy_strings, push_str_chars, string_from_chars};

verus! {

broadcast use vstd::string::group_string_axioms;

/// The version of the asset file format.
pub const FORMAT_VERSION: u32 = 1;

/// Where a set of assets came from.
#[derive(Debug, Clone, PartialEq, Eq)]
pub struct AssetSourceRef {
    pub upstream: String,
    pub version: Option<String>,
    pub commit: Option<String>,
}

/// A language as the manifest lists it.
#[derive(Debug, Clone, PartialEq, Eq)]
pub struct LanguageAssetEntry {
    pub id: String,
    pub scope_name: String,
    pub asset_file: String,
    pub display_name: Option<String>,
    pub aliases: Vec<String>,
    pub embedded_langs: Vec<String>,
    pub embedded_langs_lazy: Vec<String>,
    pub inject_to: Vec<String>,
}

/// A theme as the manifest lists it.
#[derive(Debug, Clone, PartialEq, Eq)]
pub struct ThemeAssetEntry {
    pub id: String,
    pub asset_file: String,
    pub display_name: Option<String>,
    pub theme_type: Option<String>,
}

/// The index of a language catalog.
#[derive(Debug, Clone, PartialEq, Eq)]
pub struct LanguageManifest {
    pub format_version: u32,
    pub source: AssetSourceRef,
    pub entries: Vec<LanguageAssetEntry>,
}

/// The index of a theme catalog.
#[derive(Debug, Clone, PartialEq, Eq)]
pub struct ThemeManifest {
    pub format_version: u32,
    pub source: AssetSourceRef,
    pub entries: Vec<ThemeAssetEntry>,
}

/// One language: its metadata and its grammar as JSON text.
#[derive(Debug, Clone, PartialEq)]
pub struct LanguageAsset {
    pub format_version: u32,
    pub id: String,
    pub scope_name: String,
    pub display_name: Option<String>,
    pub aliases: Vec<String>,
    pub embedded_langs: Vec<String>,
    pub embedded_langs_lazy: Vec<String>,
    pub inject_to: Vec<String>,
    pub grammar_json: String,
}

/// One theme: its metadata and the theme as JSON text.
#[derive(Debug, Clone, PartialEq)]
pub struct ThemeAsset {
    pub format_version: u32,
    pub id: String,
    pub display_name: Option<String>,
    pub theme_type: Option<String>,
    pub theme_json: String,
}

/// The files written for one catalog.
#[derive(Debug, Clone, PartialEq, Eq)]
pub struct GeneratedCatalog {
    pub manifest_path: String,
    pub asset_paths: Vec<String>,
}

/// A language read from the upstream collection.
#[derive(Debug, Clone, PartialEq, Eq)]
pub struct LanguageSourceRecord {
    pub id: String,
    pub scope_name: String,
    pub display_name: Option<String>,
    pub aliases: Vec<String>,
    pub embedded_langs: Vec<String>,
    pub embedded_langs_lazy: Vec<String>,
    pub inject_to: Vec<String>,
    pub grammar_json: String,
}

/// A theme read from the upstream collection.
#[derive(Debug, Clone, PartialEq, Eq)]
pub struct ThemeSourceRecord {
    pub id: String,
    pub display_name: Option<String>,
    pub theme_type: Option<String>,
    pub theme_json: String,
}

/// The upstream list of languages.
#[derive(Debug, Clone, PartialEq, Eq)]
pub struct UpstreamLanguageCatalog {
    pub languages: Vec<UpstreamLanguageMeta>,
}

/// One language of the upstream list; its grammar is in `grammar_file`.
#[derive(Debug, Clone, PartialEq, Eq)]
pub struct UpstreamLanguageMeta {
    pub id: String,
    pub grammar_file: String,
    pub scope_name: String,
    pub display_name: Option<String>,
    pub aliases: Vec<String>,
    pub embedded_langs: Vec<String>,
    pub embedded_langs_lazy: Vec<String>,
    pub inject_to: Vec<String>,
}

/// The upstream list of themes.
#[derive(Debug, Clone, PartialEq, Eq)]
pub struct UpstreamThemeCatalog {
    pub themes: Vec<UpstreamThemeMeta>,
}

/// One theme of the upstream list; the theme is in `theme_file`.
#[derive(Debug, Clone, PartialEq, Eq)]
pub struct UpstreamThemeMeta {
    pub id: String,
    pub theme_file: String,
    pub display_name: Option<String>,
    pub theme_type: Option<String>,
}

impl Keyed for LanguageSourceRecord {
    open spec fn key_view(&self) -> Seq<char> {
        self.id@
    }

    fn key(&self) -> (r: &str) {
        self.id.as_str()
    }
}

impl Keyed for ThemeSourceRecord {
    open spec fn key_view(&self) -> Seq<char> {
        self.id@
    }

    fn key(&self) -> (r: &str) {
        self.id.as_str()
    }
}

impl Keyed for LanguageAssetEntry {
    open spec fn key_view(&self) -> Seq<char> {
        self.id@
    }

    fn key(&self) -> (r: &str) {
        self.id.as_str()
    }
}

impl Keyed for ThemeAssetEntry {
    open spec fn key_view(&self) -> Seq<char> {
        self.id@
    }

    fn key(&self) -> (r: &str) {
        self.id.as_str()
    }
}

/// Whether `c` may stand in an asset file name as it is: an ASCII letter or
/// digit, `-` or `_`.
pub open spec fn is_asset_id_char(c: char) -> bool {
    ('a' <= c && c <= 'z') || ('A' <= c && c <= 'Z') || ('0' <= c && c <= '9') || c == '-' || c
        == '_'
}

/// `id` with every character that may not stand in a file name replaced by
/// `_`.
pub open spec fn sanitized_asset_id(id: Seq<char>) -> Seq<char> {
    id.map_values(|c: char| if is_asset_id_char(c) { c } else { '_' })
}

/// The file name of a language asset.
pub open spec fn language_asset_file_name(id: Seq<char>) -> Seq<char> {
    sanitized_asset_id(id) + ".fkgram"@
}

/// The file name of a theme asset.
pub open spec fn theme_asset_file_name(id: Seq<char>) -> Seq<char> {
    sanitized_asset_id(id) + ".fktheme"@
}

/// `id` with every character that may not stand in a file name replaced by
/// `_`.
pub fn sanitize_asset_id(id: &str) -> (r: String)
    ensures
        r@ == sanitized_asset_id(id@),
{
    let v = chars_of(id);
    let mut out: Vec<char> = Vec::new();
    let mut i: usize = 0;
    while i < v.len()
        invariant
            i <= v.len(),
            v@ == id@,
            out@ == sanitized_asset_id(id@.take(i as int)),
        decreases v.len() - i,
    {
        let c = v[i];
        let keep = ('a' <= c && c <= 'z') || ('A' <= c && c <= 'Z') || ('0' <= c && c <= '9') || c
            == '-' || c == '_';
        if keep {
            out.push(c);
        } else {
            out.push('_');
        }
        i += 1;
        assert(out@ =~= sanitized_asset_id(id@.take(i as int)));
    }
    assert(id@.take(i as int) =~= id@);
    string_from_chars(out.as_slice())
}

/// The file name of the language asset for `id`.
pub fn language_asset_file(id: &str) -> (r: String)
    ensures
        r@ == language_asset_file_name(id@),
{
    let s = sanitize_asset_id(id);
    let mut out = chars_of(s.as_str());
    push_str_chars(&mut out, ".fkgram");
    string_from_chars(out.as_slice())
}

/// The file name of the theme asset for `id`.
pub fn theme_asset_file(id: &str) -> (r: String)
    ensures
        r@ == theme_asset_file_name(id@),
{
    let s = sanitize_asset_id(id);
    let mut out = chars_of(s.as_str());
    push_str_chars(&mut out, ".fktheme");
    string_from_chars(out.as_slice())
}

/// Whether `asset` holds what `record` holds, in the current format.
pub open spec fn language_asset_of(asset: LanguageAsset, record: LanguageSourceRecord) -> bool {
    &&& asset.format_version == FORMAT_VERSION
    &&& asset.id == record.id
    &&& asset.scope_name == record.scope_name
    &&& asset.display_name == record.display_name
    &&& asset.aliases@ == record.aliases@
    &&& asset.embedded_langs@ == record.embedded_langs@
    &&& asset.embedded_langs_lazy@ == record.embedded_langs_lazy@
    &&& asset.inject_to@ == record.inject_to@
    &&& asset.grammar_json == record.grammar_json
}

/// Whether `entry` lists `record` under its asset file name.
pub open spec fn language_entry_of(entry: LanguageAssetEntry, record: LanguageSourceRecord) -> bool {
    &&& entry.id == record.id
    &&& entry.scope_name == record.scope_name
    &&& entry.asset_file@ == language_asset_file_name(record.id@)
    &&& entry.display_name == record.display_name
    &&& entry.aliases@ == record.aliases@
    &&& entry.embedded_langs@ == record.embedded_langs@
    &&& entry.embedded_langs_lazy@ == record.embedded_langs_lazy@
    &&& entry.inject_to@ == record.inject_to@
}

/// Whether `asset` holds what `record` holds, in the current format.
pub open spec fn theme_asset_of(asset: ThemeAsset, record: ThemeSourceRecord) -> bool {
    &&& asset.format_version == FORMAT_VERSION
    &&& asset.id == record.id
    &&& asset.display_name == record.display_name
    &&& asset.theme_type == record.theme_type
    &&& asset.theme_json == record.theme_json
}

/// Whether `entry` lists `record` under its asset file name.
pub open spec fn theme_entry_of(entry: ThemeAssetEntry, record: ThemeSourceRecord) -> bool {
    &&& entry.id == record.id
    &&& entry.asset_file@ == theme_asset_file_name(record.id@)
    &&& entry.display_name == record.display_name
    &&& entry.theme_type == record.theme_type
}

/// The ids of language records.
pub open spec fn language_record_ids(records: Seq<LanguageSourceRecord>) -> Seq<Seq<char>> {
    records.map_values(|r: LanguageSourceRecord| r.id@)
}

/// The ids of theme records.
pub open spec fn theme_record_ids(records: Seq<ThemeSourceRecord>) -> Seq<Seq<char>> {
    records.map_values(|r: ThemeSourceRecord| r.id@)
}

/// What a language catalog is made of: the manifest, and each asset with
/// its file name, in the order of the records.
pub struct LanguageCatalogPlan {
    pub manifest: LanguageManifest,
    pub assets: Vec<(String, LanguageAsset)>,
}

/// What a theme catalog is made of: the manifest, and each asset with its
/// file name, in the order of the records.
pub struct ThemeCatalogPlan {
    pub manifest: ThemeManifest,
    pub assets: Vec<(String, ThemeAsset)>,
}

/// The language asset for a record.
pub fn language_asset_for(record: &LanguageSourceRecord) -> (r: LanguageAsset)
    ensures
        language_asset_of(r, *record),
{
    LanguageAsset {
        format_version: FORMAT_VERSION,
        id: copy_string(&record.id),
        scope_name: copy_string(&record.scope_name),
        display_name: copy_opt_string(&record.display_name),
        aliases: copy_strings(&record.aliases),
        embedded_langs: copy_strings(&record.embedded_langs),
        embedded_langs_lazy: copy_strings(&record.embedded_langs_lazy),
        inject_to: copy_strings(&record.inject_to),
        grammar_json: copy_string(&record.grammar_json),
    }
}

/// The manifest entry for a language record.
pub fn language_entry_for(record: &LanguageSourceRecord) -> (r: LanguageAssetEntry)
    ensures
        language_entry_of(r, *record),
{
    LanguageAssetEntry {
        id: copy_string(&record.id),
        scope_name: copy_string(&record.scope_name),
        asset_file: language_asset_file(record.id.as_str()),
        display_name: copy_opt_string(&record.display_name),
        aliases: copy_strings(&record.aliases),
        embedded_langs: copy_strings(&record.embedded_langs),
        embedded_langs_lazy: copy_strings(&record.embedded_langs_lazy),
        inject_to: copy_strings(&record.inject_to),
    }
}

/// The theme asset for a record.
pub fn theme_asset_for(record: &ThemeSourceRecord) -> (r: ThemeAsset)
    ensures
        theme_asset_of(r, *record),
{
    ThemeAsset {
        format_version: FORMAT_VERSION,
        id: copy_string(&record.id),
        display_name: copy_opt_string(&record.display_name),
        theme_type: copy_opt_string(&record.theme_type),
        theme_json: copy_string(&record.theme_json),
    }
}

/// The manifest entry for a theme record.
pub fn theme_entry_for(record: &ThemeSourceRecord) -> (r: ThemeAssetEntry)
    ensures
        theme_entry_of(r, *record),
{
    ThemeAssetEntry {
        id: copy_string(&record.id),
        asset_file: theme_asset_file(record.id.as_str()),
        display_name: copy_opt_string(&record.display_name),
        theme_type: copy_opt_string(&record.theme_type),
    }
}

/// A copy of an asset source reference.
pub fn copy_source(source: &AssetSourceRef) -> (r: AssetSourceRef)
    ensures
        r == *source,
{
    AssetSourceRef {
        upstream: copy_string(&source.upstream),
        version: copy_opt_string(&source.version),
        commit: copy_opt_string(&source.commit),
    }
}

/// Plans a language catalog: one asset per record, in the order of the
/// records, and a manifest of the current format whose entries are those of
/// the records sorted by id (records with equal ids keep their order).
pub fn plan_language_catalog(source: AssetSourceRef, records: &Vec<LanguageSourceRecord>) -> (r:
    LanguageCatalogPlan)
    ensures
        r.manifest.format_version == FORMAT_VERSION,
        r.manifest.source == source,
        r.assets.len() == records.len(),
        forall|i: int|
            0 <= i < records.len() ==> (#[trigger] r.assets@[i]).0@ == language_asset_file_name(
                records@[i].id@,
            ) && language_asset_of(r.assets@[i].1, records@[i]),
        exists|order: Seq<usize>|
            {
                &&& is_stable_order(language_record_ids(records@), order)
                &&& r.manifest.entries.len() == order.len()
                &&& forall|i: int|
                    0 <= i < order.len() ==> language_entry_of(
                        #[trigger] r.manifest.entries@[i],
                        records@[order[i] as int],
                    )
            },
        sorted_by_key(r.manifest.entries@),
{
    let mut assets: Vec<(String, LanguageAsset)> = Vec::new();
    let mut ids: Vec<String> = Vec::new();
    let mut i: usize = 0;
    while i < records.len()
        invariant
            i <= records.len(),
            assets.len() == i,
            ids.len() == i,
            forall|j: int|
                0 <= j < i ==> (#[trigger] assets@[j]).0@ == language_asset_file_name(records@[j].id@)
                    && language_asset_of(assets@[j].1, records@[j]),
            forall|j: int| 0 <= j < i ==> (#[trigger] ids@[j]) == records@[j].id,
        decreases records.len() - i,
    {
        let record = &records[i];
        assets.push((language_asset_file(record.id.as_str()), language_asset_for(record)));
        ids.push(copy_string(&record.id));
        i += 1;
    }
    assert(string_views(ids@) =~= language_record_ids(records@));
    let order = stable_order(&ids);
    let mut entries: Vec<LanguageAssetEntry> = Vec::new();
    let mut k: usize = 0;
    while k < order.len()
        invariant
            k <= order.len(),
            is_stable_order(language_record_ids(records@), order@),
            entries.len() == k,
            forall|j: int|
                0 <= j < k ==> language_entry_of(#[trigger] entries@[j], records@[order@[j] as int]),
        decreases order.len() - k,
    {
        let at = order[k];
        entries.push(language_entry_for(&records[at]));
        k += 1;
    }
    proof {
        let ids_view = language_record_ids(records@);
        assert forall|a: int, b: int| 0 <= a < b < entries@.len() implies !crate::lexical::chars_before(
            (#[trigger] entries@[b]).key_view(),
            (#[trigger] entries@[a]).key_view(),
        ) by {
            assert(entries@[a].id@ == ids_view[order@[a] as int]);
            assert(entries@[b].id@ == ids_view[order@[b] as int]);
        }
    }
    LanguageCatalogPlan {
        manifest: LanguageManifest { format_version: FORMAT_VERSION, source, entries },
        assets,
    }
}

/// Plans a theme catalog: one asset per record, in the order of the
/// records, and a manifest of the current format whose entries are those of
/// the records sorted by id (records with equal ids keep their order).
pub fn plan_theme_catalog(source: AssetSourceRef, records: &Vec<ThemeSourceRecord>) -> (r:
    ThemeCatalogPlan)
    ensures
        r.manifest.format_version == FORMAT_VERSION,
        r.manifest.source == source,
        r.assets.len() == records.len(),
        forall|i: int|
            0 <= i < records.len() ==> (#[trigger] r.assets@[i]).0@ == theme_asset_file_name(
                records@[i].id@,
            ) && theme_asset_of(r.assets@[i].1, records@[i]),
        exists|order: Seq<usize>|
            {
                &&& is_stable_order(theme_record_ids(records@), order)
                &&& r.manifest.entries.len() == order.len()
                &&& forall|i: int|
                    0 <= i < order.len() ==> theme_entry_of(
                        #[trigger] r.manifest.entries@[i],
                        records@[order[i] as int],
                    )
            },
        sorted_by_key(r.manifest.entries@),
{
    let mut assets: Vec<(String, ThemeAsset)> = Vec::new();
    let mut ids: Vec<String> = Vec::new();
    let mut i: usize = 0;
    while i < records.len()
        invariant
            i <= records.len(),
            assets.len() == i,
            ids.len() == i,
            forall|j: int|
                0 <= j < i ==> (#[trigger] assets@[j]).0@ == theme_asset_file_name(records@[j].id@)
                    && theme_asset_of(assets@[j].1, records@[j]),
            forall|j: int| 0 <= j < i ==> (#[trigger] ids@[j]) == records@[j].id,
        decreases records.len() - i,
    {
        let record = &records[i];
        assets.push((theme_asset_file(record.id.as_str()), theme_asset_for(record)));
        ids.push(copy_string(&record.id));
        i += 1;
    }
    assert(string_views(ids@) =~= theme_record_ids(records@));
    let order = stable_order(&ids);
    let mut entries: Vec<ThemeAssetEntry> = Vec::new();
    let mut k: usize = 0;
    while k < order.len()
        invariant
            k <= order.len(),
            is_stable_order(theme_record_ids(records@), order@),
            entries.len() == k,
            forall|j: int|
                0 <= j < k ==> theme_entry_of(#[trigger] entries@[j], records@[order@[j] as int]),
        decreases order.len() - k,
    {
        let at = order[k];
        entries.push(theme_entry_for(&records[at]));
        k += 1;
    }
    proof {
        let ids_view = theme_record_ids(records@);
        assert forall|a: int, b: int| 0 <= a < b < entries@.len() implies !crate::lexical::chars_before(
            (#[trigger] entries@[b]).key_view(),
            (#[trigger] entries@[a]).key_view(),
        ) by {
            assert(entries@[a].id@ == ids_view[order@[a] as int]);
            assert(entries@[b].id@ == ids_view[order@[b] as int]);
        }
    }
    ThemeCatalogPlan {
        manifest: ThemeManifest { format_version: FORMAT_VERSION, source, entries },
        assets,
    }
}

/// The record of an upstream language whose grammar file held
/// `grammar_json`.
pub fn language_record_from_upstream(meta: UpstreamLanguageMeta, grammar_json: String) -> (r:
    LanguageSourceRecord)
    ensures
        r.id == meta.id,
        r.scope_name == meta.scope_name,
        r.display_name == meta.display_name,
        r.aliases == meta.aliases,
        r.embedded_langs == meta.embedded_langs,
        r.embedded_langs_lazy == meta.embedded_langs_lazy,
        r.inject_to == meta.inject_to,
        r.grammar_json == grammar_json,
{
    LanguageSourceRecord {
        id: meta.id,
        scope_name: meta.scope_name,
        display_name: meta.display_name,
        aliases: meta.aliases,
        embedded_langs: meta.embedded_langs,
        embedded_langs_lazy: meta.embedded_langs_lazy,
        inject_to: meta.inject_to,
        grammar_json,
    }
}

/// The record of an upstream theme whose theme file held `theme_json`.
pub fn theme_record_from_upstream(meta: UpstreamThemeMeta, theme_json: String) -> (r:
    ThemeSourceRecord)
    ensures
        r.id == meta.id,
        r.display_name == meta.display_name,
        r.theme_type == meta.theme_type,
        r.theme_json == theme_json,
{
    ThemeSourceRecord {
        id: meta.id,
        display_name: meta.display_name,
        theme_type: meta.theme_type,
        theme_json,
    }
}

/// Language records sorted by id; records with equal ids keep their order.
pub fn sort_language_records(records: Vec<LanguageSourceRecord>) -> (r: Vec<LanguageSourceRecord>)
    ensures
        sorted_by_key(r@),
        exists|p: Seq<int>| stable_reordering(r@, records@, p),
{
    sort_by_key(records)
}

/// Theme records sorted by id; records with equal ids keep their order.
pub fn sort_theme_records(records: Vec<ThemeSourceRecord>) -> (r: Vec<ThemeSourceRecord>)
    ensures
        sorted_by_key(r@),
        exists|p: Seq<int>| stable_reordering(r@, records@, p),
{
    sort_by_key(records)
}

} // verus!
