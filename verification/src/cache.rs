//! The build cache: what earlier builds have written, and from what.
use vstd::prelude::*;
use vstd::string::*;

use crate::fspath;
use crate::order;
use crate::text;
use crate::text::{copy_text, same_text};

verus! {

/// The name of the cache file in the output directory.
pub const BUILD_CACHE_FILE: &'static str = ".nanoss-cache.json";

/// The version of the form in which the cache is kept.
pub const BUILD_CACHE_SCHEMA_VERSION: u32 = 3;

/// What was written for a page or an asset: the fingerprint of its sources, and
/// the file.
#[derive(Debug)]
pub struct CacheRecord {
    pub hash: String,
    pub output: String,
}

/// What a record holds.
pub struct RecordView {
    pub hash: Seq<char>,
    pub output: Seq<char>,
}

impl View for CacheRecord {
    type V = RecordView;

    open spec fn view(&self) -> RecordView {
        RecordView { hash: self.hash@, output: self.output@ }
    }
}

/// A variant of an image that was written.
#[derive(Debug)]
pub struct ImageVariantRecord {
    pub format: String,
    pub width: Option<u32>,
    pub output: String,
}

/// What a record of a variant holds.
pub struct VariantView {
    pub format: Seq<char>,
    pub width: Option<u32>,
    pub output: Seq<char>,
}

impl View for ImageVariantRecord {
    type V = VariantView;

    open spec fn view(&self) -> VariantView {
        VariantView { format: self.format@, width: self.width, output: self.output@ }
    }
}

/// What was written for an image.
#[derive(Debug)]
pub struct CacheImageRecord {
    pub hash: String,
    pub output: String,
    pub width: Option<u32>,
    pub height: Option<u32>,
    pub variants: Vec<ImageVariantRecord>,
}

/// What a record of an image holds.
pub struct ImageView {
    pub hash: Seq<char>,
    pub output: Seq<char>,
    pub width: Option<u32>,
    pub height: Option<u32>,
    pub variants: Seq<VariantView>,
}

impl View for CacheImageRecord {
    type V = ImageView;

    open spec fn view(&self) -> ImageView {
        ImageView {
            hash: self.hash@,
            output: self.output@,
            width: self.width,
            height: self.height,
            variants: order::views(self.variants@),
        }
    }
}

/// The build cache: its records by the paths of their sources, in the order of
/// the paths.
#[derive(Debug)]
pub struct BuildCache {
    schema_version: u32,
    pages: Vec<(String, CacheRecord)>,
    assets: Vec<(String, CacheRecord)>,
    images: Vec<(String, CacheImageRecord)>,
}

impl BuildCache {
    /// The version of the form that the cache was kept in.
    pub closed spec fn version(&self) -> u32 {
        self.schema_version
    }

    /// The records of the pages.
    pub closed spec fn page_rows(&self) -> Seq<(Seq<char>, RecordView)> {
        order::rows(self.pages@)
    }

    /// The records of the assets.
    pub closed spec fn asset_rows(&self) -> Seq<(Seq<char>, RecordView)> {
        order::rows(self.assets@)
    }

    /// The records of the images.
    pub closed spec fn image_rows(&self) -> Seq<(Seq<char>, ImageView)> {
        order::rows(self.images@)
    }

    /// The paths of every kind of record increase, so none occurs twice.
    pub open spec fn wf(&self) -> bool {
        &&& order::keys_increase(self.page_rows())
        &&& order::keys_increase(self.asset_rows())
        &&& order::keys_increase(self.image_rows())
    }

    /// The cache holds nothing, in the form of this version.
    pub open spec fn is_fresh(&self) -> bool {
        &&& self.version() == BUILD_CACHE_SCHEMA_VERSION
        &&& self.page_rows().len() == 0
        &&& self.asset_rows().len() == 0
        &&& self.image_rows().len() == 0
    }

    /// An empty cache that was kept in the form `schema_version`.
    pub fn with_version(schema_version: u32) -> (r: Self)
        ensures
            r.wf(),
            r.version() == schema_version,
            r.page_rows().len() == 0,
            r.asset_rows().len() == 0,
            r.image_rows().len() == 0,
    {
        BuildCache { schema_version, pages: Vec::new(), assets: Vec::new(), images: Vec::new() }
    }

    /// The cache that a build begins with, given the one that was kept: a cache
    /// in another form counts for nothing.
    pub fn accepted(self) -> (r: Self)
        requires
            self.wf(),
        ensures
            r.wf(),
            self.version() == BUILD_CACHE_SCHEMA_VERSION ==> r == self,
            self.version() != BUILD_CACHE_SCHEMA_VERSION ==> r.is_fresh(),
    {
        if self.schema_version != BUILD_CACHE_SCHEMA_VERSION {
            BuildCache::default()
        } else {
            self
        }
    }

    /// The version of the form that the cache was kept in.
    pub fn schema_version(&self) -> (r: u32)
        ensures
            r == self.version(),
    {
        self.schema_version
    }

    /// How many pages have a record.
    pub fn page_count(&self) -> (r: usize)
        ensures
            r == self.page_rows().len(),
    {
        self.pages.len()
    }

    /// The path and the record of the page with index `i`.
    pub fn page_at(&self, i: usize) -> (r: (&str, &CacheRecord))
        requires
            i < self.page_rows().len(),
        ensures
            (r.0@, r.1@) == self.page_rows()[i as int],
    {
        (self.pages[i].0.as_str(), &self.pages[i].1)
    }

    /// How many assets have a record.
    pub fn asset_count(&self) -> (r: usize)
        ensures
            r == self.asset_rows().len(),
    {
        self.assets.len()
    }

    /// The path and the record of the asset with index `i`.
    pub fn asset_at(&self, i: usize) -> (r: (&str, &CacheRecord))
        requires
            i < self.asset_rows().len(),
        ensures
            (r.0@, r.1@) == self.asset_rows()[i as int],
    {
        (self.assets[i].0.as_str(), &self.assets[i].1)
    }

    /// How many images have a record.
    pub fn image_count(&self) -> (r: usize)
        ensures
            r == self.image_rows().len(),
    {
        self.images.len()
    }

    /// The path and the record of the image with index `i`.
    pub fn image_at(&self, i: usize) -> (r: (&str, &CacheImageRecord))
        requires
            i < self.image_rows().len(),
        ensures
            (r.0@, r.1@) == self.image_rows()[i as int],
    {
        (self.images[i].0.as_str(), &self.images[i].1)
    }

    /// Sets the record of a page.
    pub fn put_page(&mut self, path: &str, record: CacheRecord)
        requires
            old(self).wf(),
        ensures
            final(self).wf(),
            final(self).version() == old(self).version(),
            final(self).page_rows() == order::put(old(self).page_rows(), path@, record@),
            final(self).asset_rows() == old(self).asset_rows(),
            final(self).image_rows() == old(self).image_rows(),
    {
        order::put_row(&mut self.pages, path, record);
    }

    /// Sets the record of an asset.
    pub fn put_asset(&mut self, path: &str, record: CacheRecord)
        requires
            old(self).wf(),
        ensures
            final(self).wf(),
            final(self).version() == old(self).version(),
            final(self).asset_rows() == order::put(old(self).asset_rows(), path@, record@),
            final(self).page_rows() == old(self).page_rows(),
            final(self).image_rows() == old(self).image_rows(),
    {
        order::put_row(&mut self.assets, path, record);
    }

    /// Sets the record of an image.
    pub fn put_image(&mut self, path: &str, record: CacheImageRecord)
        requires
            old(self).wf(),
        ensures
            final(self).wf(),
            final(self).version() == old(self).version(),
            final(self).image_rows() == order::put(old(self).image_rows(), path@, record@),
            final(self).page_rows() == old(self).page_rows(),
            final(self).asset_rows() == old(self).asset_rows(),
    {
        order::put_row(&mut self.images, path, record);
    }

    /// The file that was written for the page at `path` from sources with the
    /// fingerprint `hash`.
    pub fn page_output(&self, path: &str, hash: &str) -> (r: Option<String>)
        requires
            self.wf(),
        ensures
            text::opt_text(r) == recorded_output(self.page_rows(), path@, hash@),
    {
        match order::find_row(&self.pages, path) {
            Some(i) => {
                if same_text(self.pages[i].1.hash.as_str(), hash) {
                    Some(copy_text(self.pages[i].1.output.as_str()))
                } else {
                    None
                }
            },
            None => None,
        }
    }

    /// The file that was written for the asset at `path` from a source with the
    /// digest `hash`.
    pub fn asset_output(&self, path: &str, hash: &str) -> (r: Option<String>)
        requires
            self.wf(),
        ensures
            text::opt_text(r) == recorded_output(self.asset_rows(), path@, hash@),
    {
        match order::find_row(&self.assets, path) {
            Some(i) => {
                if same_text(self.assets[i].1.hash.as_str(), hash) {
                    Some(copy_text(self.assets[i].1.output.as_str()))
                } else {
                    None
                }
            },
            None => None,
        }
    }
}

impl Default for BuildCache {
    fn default() -> (r: Self)
        ensures
            r.wf(),
            r.is_fresh(),
    {
        BuildCache::with_version(BUILD_CACHE_SCHEMA_VERSION)
    }
}

/// The output of the record of `path`, where its fingerprint is `hash`.
pub open spec fn recorded_output(
    rows: Seq<(Seq<char>, RecordView)>,
    path: Seq<char>,
    hash: Seq<char>,
) -> Option<Seq<char>> {
    match order::get(rows, path) {
        Some(record) => if record.hash == hash {
            Some(record.output)
        } else {
            None
        },
        None => None,
    }
}

/// What was recorded for a path is found again under its fingerprint and under
/// no other, and what is found for other paths stays.
pub proof fn law_record_is_found(
    rows: Seq<(Seq<char>, RecordView)>,
    path: Seq<char>,
    record: RecordView,
    hash: Seq<char>,
    other: Seq<char>,
)
    ensures
        recorded_output(order::put(rows, path, record), path, record.hash) == Some(record.output),
        hash != record.hash ==> recorded_output(order::put(rows, path, record), path, hash) is None,
        other != path ==> recorded_output(order::put(rows, path, record), other, hash)
            == recorded_output(rows, other, hash),
{
    order::law_get_after_put(rows, path, record, other);
}

/// The path of the cache file.
pub open spec fn cache_file(output_dir: Seq<char>) -> Seq<char> {
    fspath::join(output_dir, BUILD_CACHE_FILE@)
}

/// Computes [`cache_file`].
pub fn cache_path(output_dir: &str) -> (r: String)
    ensures
        r@ == cache_file(output_dir@),
{
    fspath::path_join(output_dir, BUILD_CACHE_FILE)
}

/// The warning about a cache in another form.
pub fn schema_warning(found: u32) -> (r: String)
    ensures
        r@ == "warning: cache schema mismatch "@ + text::decimal(found as nat) + " != "@
            + text::decimal(BUILD_CACHE_SCHEMA_VERSION as nat) + ", resetting cache"@,
{
    let mut out = copy_text("warning: cache schema mismatch ");
    let a = text::decimal_text(found as u128);
    out.append(a.as_str());
    out.append(" != ");
    let b = text::decimal_text(BUILD_CACHE_SCHEMA_VERSION as u128);
    out.append(b.as_str());
    out.append(", resetting cache");
    out
}

} // verus!
