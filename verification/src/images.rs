//! Images: which variants of an image are written, and under which names.
use image::codecs::webp::WebPEncoder;
use image::{ExtendedColorType, ImageEncoder};
use vstd::prelude::*;
use vstd::string::*;

use crate::cache::{CacheImageRecord, ImageVariantRecord, VariantView};
use crate::config::ImageBuildConfig;
use crate::config::append_number;
use crate::failure::{failure, Failure};
use crate::fspath;
use crate::order;
use crate::text;
use crate::text::{copy_text, same_text};

verus! {

/// An extension of image files, in lower case.
pub open spec fn image_suffix(ext: Seq<char>) -> bool {
    ||| ext == "png"@
    ||| ext == "jpg"@
    ||| ext == "jpeg"@
    ||| ext == "gif"@
    ||| ext == "webp"@
    ||| ext == "avif"@
    ||| ext == "bmp"@
    ||| ext == "tiff"@
}

/// Whether `ext` is an extension of image files, in upper or lower case.
pub fn is_image_extension(ext: &str) -> (r: bool)
    ensures
        r == image_suffix(text::ascii_lower(ext@)),
{
    let low = text::to_ascii_lower(ext);
    let s = low.as_str();
    same_text(s, "png") || same_text(s, "jpg") || same_text(s, "jpeg") || same_text(s, "gif")
        || same_text(s, "webp") || same_text(s, "avif") || same_text(s, "bmp") || same_text(
        s,
        "tiff",
    )
}

/// The format of a variant.
#[derive(Debug, Clone, Copy, PartialEq, Eq, Structural)]
pub enum VariantFormat {
    Original,
    Webp,
    Avif,
}

/// The name of a format.
pub open spec fn format_name(format: VariantFormat) -> Seq<char> {
    match format {
        VariantFormat::Original => "original"@,
        VariantFormat::Webp => "webp"@,
        VariantFormat::Avif => "avif"@,
    }
}

impl VariantFormat {
    /// The name of the format.
    pub fn name(&self) -> (r: &'static str)
        ensures
            r@ == format_name(*self),
    {
        match self {
            VariantFormat::Original => "original",
            VariantFormat::Webp => "webp",
            VariantFormat::Avif => "avif",
        }
    }
}

/// The formats that are written: the original one, and those that are asked for.
pub open spec fn formats_of(config: ImageBuildConfig) -> Seq<VariantFormat> {
    seq![VariantFormat::Original] + (if config.generate_webp {
        seq![VariantFormat::Webp]
    } else {
        Seq::empty()
    }) + (if config.generate_avif {
        seq![VariantFormat::Avif]
    } else {
        Seq::empty()
    })
}

/// Increasing widths with `w` among them.
pub open spec fn put_width(s: Seq<u32>, w: u32) -> Seq<u32>
    decreases s.len(),
{
    if s.len() == 0 || w < s[0] {
        seq![w] + s
    } else if w == s[0] {
        s
    } else {
        seq![s[0]] + put_width(s.skip(1), w)
    }
}

/// The widths in `s`, increasing, each once.
pub open spec fn distinct_widths(s: Seq<u32>) -> Seq<u32>
    decreases s.len(),
{
    if s.len() == 0 {
        s
    } else {
        put_width(distinct_widths(s.drop_last()), s.last())
    }
}

/// The widths increase.
pub open spec fn widths_increase(s: Seq<u32>) -> bool {
    forall|i: int, j: int| 0 <= i < j < s.len() ==> #[trigger] s[i] < #[trigger] s[j]
}

/// Puts `w` among increasing widths, as [`put_width`] says.
fn insert_width(v: &mut Vec<u32>, w: u32)
    ensures
        final(v)@ == put_width(old(v)@, w),
{
    let ghost s = v@;
    let mut i: usize = 0;
    assert(s.skip(0) =~= s);
    assert(s.take(0) + put_width(s.skip(0), w) =~= put_width(s, w));
    while i < v.len() && v[i] < w
        invariant
            i <= v.len(),
            v@ == s,
            put_width(s, w) == s.take(i as int) + put_width(s.skip(i as int), w),
        decreases v.len() - i,
    {
        assert(s.skip(i as int).skip(1) =~= s.skip(i + 1));
        assert(s.take(i as int) + (seq![s[i as int]] + put_width(s.skip(i + 1), w)) =~= s.take(
            i + 1,
        ) + put_width(s.skip(i + 1), w));
        i += 1;
    }
    if i < v.len() && v[i] == w {
        assert(s.take(i as int) + s.skip(i as int) =~= s);
        return;
    }
    v.insert(i, w);
    assert(s.take(i as int) + (seq![w] + s.skip(i as int)) =~= s.insert(i as int, w));
}

/// Computes [`distinct_widths`].
pub fn sorted_widths(widths: &Vec<u32>) -> (r: Vec<u32>)
    ensures
        r@ == distinct_widths(widths@),
{
    let mut out: Vec<u32> = Vec::new();
    let mut i: usize = 0;
    assert(widths@.take(0) =~= Seq::empty());
    while i < widths.len()
        invariant
            i <= widths.len(),
            out@ == distinct_widths(widths@.take(i as int)),
        decreases widths.len() - i,
    {
        assert(widths@.take(i + 1).drop_last() =~= widths@.take(i as int));
        insert_width(&mut out, widths[i]);
        i += 1;
    }
    assert(widths@.take(widths.len() as int) =~= widths@);
    out
}

/// The distinct widths increase, and are the widths that were given.
pub proof fn law_distinct_widths(s: Seq<u32>, w: u32)
    ensures
        widths_increase(distinct_widths(s)),
        distinct_widths(s).contains(w) <==> s.contains(w),
    decreases s.len(),
{
    if s.len() > 0 {
        let rest = s.drop_last();
        law_distinct_widths(rest, w);
        lemma_put_width(distinct_widths(rest), s.last(), w);
        if s.contains(w) && w != s.last() {
            let k = choose|k: int| 0 <= k < s.len() && s[k] == w;
            assert(rest[k] == w);
        }
        if rest.contains(w) {
            let k = choose|k: int| 0 <= k < rest.len() && rest[k] == w;
            assert(s[k] == w);
        }
        if w == s.last() {
            assert(s[s.len() - 1] == w);
        }
    }
}

proof fn lemma_put_width(s: Seq<u32>, w: u32, x: u32)
    requires
        widths_increase(s),
    ensures
        widths_increase(put_width(s, w)),
        put_width(s, w).contains(x) <==> (s.contains(x) || x == w),
        put_width(s, w).len() > 0 && (put_width(s, w)[0] == w || (s.len() > 0 && put_width(s, w)[0]
            == s[0])),
    decreases s.len(),
{
    let r = put_width(s, w);
    if s.len() == 0 || w < s[0] {
        assert forall|i: int, j: int| 0 <= i < j < r.len() implies #[trigger] r[i] < #[trigger] r[j] by {
            assert(r[j] == s[j - 1]);
            if i > 0 {
                assert(r[i] == s[i - 1]);
            } else if j > 1 {
                assert(s[0] < s[j - 1]);
            }
        }
        assert(r[0] == w);
        if s.contains(x) {
            let k = choose|k: int| 0 <= k < s.len() && s[k] == x;
            assert(r[k + 1] == x);
        }
        if r.contains(x) && x != w {
            let k = choose|k: int| 0 <= k < r.len() && r[k] == x;
            assert(s[k - 1] == x);
        }
    } else if w == s[0] {
        assert(s.contains(w));
    } else {
        let t = s.skip(1);
        assert forall|i: int, j: int| 0 <= i < j < t.len() implies #[trigger] t[i] < #[trigger] t[j] by {
            assert(t[i] == s[i + 1] && t[j] == s[j + 1]);
        }
        lemma_put_width(t, w, x);
        let inner = put_width(t, w);
        if t.len() > 0 {
            assert(t[0] == s[1]);
            assert(s[0] < s[1]);
        }
        assert forall|i: int, j: int| 0 <= i < j < r.len() implies #[trigger] r[i] < #[trigger] r[j] by {
            assert(r[j] == inner[j - 1]);
            if i > 0 {
                assert(r[i] == inner[i - 1]);
            } else if j > 1 {
                assert(inner[0] < inner[j - 1]);
            }
        }
        if s.contains(x) {
            let k = choose|k: int| 0 <= k < s.len() && s[k] == x;
            if k == 0 {
                assert(r[0] == x);
            } else {
                assert(t[k - 1] == x);
            }
        }
        if inner.contains(x) {
            let k = choose|k: int| 0 <= k < inner.len() && inner[k] == x;
            assert(r[k + 1] == x);
        }
        if r.contains(x) {
            let k = choose|k: int| 0 <= k < r.len() && r[k] == x;
            if k == 0 {
                assert(s[0] == x);
            } else {
                assert(inner[k - 1] == x);
            }
        }
        if t.contains(x) {
            let k = choose|k: int| 0 <= k < t.len() && t[k] == x;
            assert(s[k + 1] == x);
        }
    }
}

// ---------------------------------------------------------------------------
// The plan for an image.

/// A variant that is to be written.
#[derive(Debug)]
pub struct PlannedVariant {
    pub format: VariantFormat,
    pub width: u32,
    pub output: String,
}

/// What a planned variant holds.
pub struct PlanView {
    pub format: VariantFormat,
    pub width: u32,
    pub output: Seq<char>,
}

impl View for PlannedVariant {
    type V = PlanView;

    open spec fn view(&self) -> PlanView {
        PlanView { format: self.format, width: self.width, output: self.output@ }
    }
}

/// The file of a variant: beside the image, with the width in its name.
pub open spec fn variant_path(target: Seq<char>, format: VariantFormat, width: u32) -> Seq<char> {
    let stem = fspath::file_stem(target).unwrap_or("image"@);
    let suffix = match format {
        VariantFormat::Original => fspath::extension(target).unwrap_or("img"@),
        _ => format_name(format),
    };
    fspath::with_file_name(
        target,
        stem + "-w"@ + text::decimal(width as nat) + "."@ + suffix,
    )
}

/// Computes [`variant_path`].
pub fn variant_output(target: &str, format: VariantFormat, width: u32) -> (r: String)
    ensures
        r@ == variant_path(target@, format, width),
{
    let mut name = match fspath::path_stem(target) {
        Some(s) => s,
        None => copy_text("image"),
    };
    name.append("-w");
    append_number(&mut name, width as usize);
    name.append(".");
    match format {
        VariantFormat::Original => {
            match fspath::path_extension(target) {
                Some(e) => {
                    name.append(e.as_str());
                },
                None => {
                    name.append("img");
                },
            }
        },
        VariantFormat::Webp => {
            name.append("webp");
        },
        VariantFormat::Avif => {
            name.append("avif");
        },
    }
    fspath::replace_file_name(target, name.as_str())
}

/// A variant of this width is written for an image of the width `width`: it is
/// not wider, and not the image itself once more.
pub open spec fn width_wanted(format: VariantFormat, hint: u32, width: u32) -> bool {
    hint != 0 && hint <= width && !(format == VariantFormat::Original && hint == width)
}

/// The variants in one format, of the widths `hints`.
pub open spec fn variants_in(
    target: Seq<char>,
    format: VariantFormat,
    hints: Seq<u32>,
    width: u32,
) -> Seq<PlanView>
    decreases hints.len(),
{
    if hints.len() == 0 {
        Seq::empty()
    } else {
        let rest = variants_in(target, format, hints.drop_last(), width);
        let hint = hints.last();
        if width_wanted(format, hint, width) {
            rest.push(PlanView { format, width: hint, output: variant_path(target, format, hint) })
        } else {
            rest
        }
    }
}

/// The variants in several formats.
pub open spec fn variants_for(
    target: Seq<char>,
    formats: Seq<VariantFormat>,
    hints: Seq<u32>,
    width: u32,
) -> Seq<PlanView>
    decreases formats.len(),
{
    if formats.len() == 0 {
        Seq::empty()
    } else {
        variants_for(target, formats.drop_last(), hints, width) + variants_in(
            target,
            formats.last(),
            hints,
            width,
        )
    }
}

/// The variants that are written for an image of the width `width`: in every
/// format the configured widths and the full width.
pub open spec fn planned_variants(
    target: Seq<char>,
    config: ImageBuildConfig,
    width: u32,
) -> Seq<PlanView> {
    variants_for(
        target,
        formats_of(config),
        distinct_widths(config.widths@).push(width),
        width,
    )
}

/// Computes [`planned_variants`].
pub fn plan_image_variants(target: &str, config: &ImageBuildConfig, width: u32) -> (r: Vec<
    PlannedVariant,
>)
    ensures
        order::views(r@) == planned_variants(target@, *config, width),
{
    let mut formats: Vec<VariantFormat> = Vec::new();
    formats.push(VariantFormat::Original);
    if config.generate_webp {
        formats.push(VariantFormat::Webp);
    }
    if config.generate_avif {
        formats.push(VariantFormat::Avif);
    }
    assert(formats@ =~= formats_of(*config));
    let mut hints = sorted_widths(&config.widths);
    hints.push(width);
    let mut out: Vec<PlannedVariant> = Vec::new();
    let mut f: usize = 0;
    assert(formats@.take(0) =~= Seq::empty());
    assert(order::views(out@) =~= Seq::empty());
    while f < formats.len()
        invariant
            f <= formats.len(),
            order::views(out@) == variants_for(target@, formats@.take(f as int), hints@, width),
        decreases formats.len() - f,
    {
        let format = formats[f];
        let ghost done = order::views(out@);
        let mut i: usize = 0;
        assert(hints@.take(0) =~= Seq::empty());
        assert(done + variants_in(target@, format, hints@.take(0), width) =~= done);
        while i < hints.len()
            invariant
                i <= hints.len(),
                order::views(out@) == done + variants_in(
                    target@,
                    format,
                    hints@.take(i as int),
                    width,
                ),
            decreases hints.len() - i,
        {
            assert(hints@.take(i + 1).drop_last() =~= hints@.take(i as int));
            let hint = hints[i];
            let is_original = match format {
                VariantFormat::Original => true,
                _ => false,
            };
            if hint != 0 && hint <= width && !(is_original && hint == width) {
                let ghost before = out@;
                let variant = PlannedVariant {
                    format,
                    width: hint,
                    output: variant_output(target, format, hint),
                };
                let ghost vv = variant@;
                out.push(variant);
                assert(order::views(out@) =~= order::views(before).push(vv));
                assert(done + variants_in(target@, format, hints@.take(i as int), width).push(vv)
                    =~= order::views(out@));
            }
            i += 1;
        }
        assert(hints@.take(hints.len() as int) =~= hints@);
        assert(formats@.take(f + 1).drop_last() =~= formats@.take(f as int));
        f += 1;
    }
    assert(formats@.take(formats.len() as int) =~= formats@);
    out
}

/// No variant of an image is wider than the image or empty, and the image itself
/// is not written once more in its own format.
pub proof fn law_variants_fit(target: Seq<char>, config: ImageBuildConfig, width: u32, k: int)
    requires
        0 <= k < planned_variants(target, config, width).len(),
    ensures
        ({
            let v = planned_variants(target, config, width)[k];
            &&& 0 < v.width <= width
            &&& v.format == VariantFormat::Original ==> v.width < width
            &&& v.output == variant_path(target, v.format, v.width)
        }),
{
    lemma_variants_fit(
        target,
        formats_of(config),
        distinct_widths(config.widths@).push(width),
        width,
        k,
    );
}

proof fn lemma_variants_fit(
    target: Seq<char>,
    formats: Seq<VariantFormat>,
    hints: Seq<u32>,
    width: u32,
    k: int,
)
    requires
        0 <= k < variants_for(target, formats, hints, width).len(),
    ensures
        ({
            let v = variants_for(target, formats, hints, width)[k];
            &&& width_wanted(v.format, v.width, width)
            &&& v.output == variant_path(target, v.format, v.width)
        }),
    decreases formats.len(),
{
    let head = variants_for(target, formats.drop_last(), hints, width);
    if k < head.len() {
        lemma_variants_fit(target, formats.drop_last(), hints, width, k);
    } else {
        lemma_variants_in_fit(target, formats.last(), hints, width, k - head.len());
    }
}

proof fn lemma_variants_in_fit(
    target: Seq<char>,
    format: VariantFormat,
    hints: Seq<u32>,
    width: u32,
    k: int,
)
    requires
        0 <= k < variants_in(target, format, hints, width).len(),
    ensures
        ({
            let v = variants_in(target, format, hints, width)[k];
            &&& v.format == format
            &&& width_wanted(format, v.width, width)
            &&& v.output == variant_path(target, format, v.width)
        }),
    decreases hints.len(),
{
    let rest = variants_in(target, format, hints.drop_last(), width);
    if k < rest.len() {
        lemma_variants_in_fit(target, format, hints.drop_last(), width, k);
    }
}

/// The record of a written variant.
pub open spec fn variant_record(p: PlanView) -> VariantView {
    VariantView { format: format_name(p.format), width: Some(p.width), output: p.output }
}

/// The record of an image: its size and its variants, where it was opened.
pub fn image_record(
    hash: &str,
    target: &str,
    size: Option<(u32, u32)>,
    written: &Vec<PlannedVariant>,
) -> (r: CacheImageRecord)
    ensures
        r.hash@ == hash@,
        r.output@ == target@,
        size matches Some(s) ==> r.width == Some(s.0) && r.height == Some(s.1)
            && order::views(r.variants@) == Seq::new(
            written@.len(),
            |i: int| variant_record(written@[i]@),
        ),
        size is None ==> r.width is None && r.height is None && r.variants@.len() == 0,
{
    let mut variants: Vec<ImageVariantRecord> = Vec::new();
    match size {
        None => CacheImageRecord {
            hash: copy_text(hash),
            output: copy_text(target),
            width: None,
            height: None,
            variants,
        },
        Some((width, height)) => {
            let mut i: usize = 0;
            while i < written.len()
                invariant
                    i <= written.len(),
                    variants@.len() == i,
                    forall|j: int|
                        0 <= j < i ==> (#[trigger] variants@[j])@ == variant_record(written@[j]@),
                decreases written.len() - i,
            {
                variants.push(
                    ImageVariantRecord {
                        format: copy_text(written[i].format.name()),
                        width: Some(written[i].width),
                        output: copy_text(written[i].output.as_str()),
                    },
                );
                i += 1;
            }
            assert(order::views(variants@) =~= Seq::new(
                written@.len(),
                |i: int| variant_record(written@[i]@),
            ));
            CacheImageRecord {
                hash: copy_text(hash),
                output: copy_text(target),
                width: Some(width),
                height: Some(height),
                variants,
            }
        },
    }
}

// ---------------------------------------------------------------------------
// The content of a variant.

/// The largest width and height of a WebP image.
pub const WEBP_LIMIT: u32 = 16_384;

/// The lossless WebP image with these pixels, four bytes each, row by row.
pub uninterp spec fn webp_bytes(pixels: Seq<u8>, width: u32, height: u32) -> Seq<u8>;

/// A WebP image can have this size.
pub open spec fn webp_size(width: u32, height: u32) -> bool {
    0 < width <= WEBP_LIMIT && 0 < height <= WEBP_LIMIT
}

/// `image::codecs::webp::WebPEncoder::write_image`, on a lossless encoder that
/// writes to memory. It takes exactly the sizes of [`webp_size`], and gives
/// [`webp_bytes`], of which nothing more is said. It panics where the pixels do not
/// fill the image.
#[verifier::external_body]
fn write_webp(pixels: &Vec<u8>, width: u32, height: u32) -> (r: Option<Vec<u8>>)
    requires
        pixels@.len() == width * height * 4,
    ensures
        r is Some <==> webp_size(width, height),
        r matches Some(bytes) ==> bytes@ == webp_bytes(pixels@, width, height),
{
    let mut bytes: Vec<u8> = Vec::new();
    let encoder = WebPEncoder::new_lossless(&mut bytes);
    match encoder.write_image(pixels, width, height, ExtendedColorType::Rgba8) {
        Ok(()) => Some(bytes),
        Err(_) => None,
    }
}

/// The content of a WebP variant.
pub fn encode_webp(pixels: &Vec<u8>, width: u32, height: u32) -> (r: Result<Vec<u8>, Failure>)
    requires
        pixels@.len() == width * height * 4,
    ensures
        match r {
            Ok(bytes) => webp_size(width, height) && bytes@ == webp_bytes(pixels@, width, height),
            Err(e) => !webp_size(width, height) && e.message@ == "failed to encode webp variant"@,
        },
{
    match write_webp(pixels, width, height) {
        Some(bytes) => Ok(bytes),
        None => Err(failure(copy_text("failed to encode webp variant"))),
    }
}

// ---------------------------------------------------------------------------
// More laws.

/// Images are the files with one of these eight extensions.
pub proof fn law_image_extensions(ext: Seq<char>)
    ensures
        image_suffix(ext) <==> seq![
            "png"@,
            "jpg"@,
            "jpeg"@,
            "gif"@,
            "webp"@,
            "avif"@,
            "bmp"@,
            "tiff"@,
        ].contains(ext),
{
    let all = seq![
        "png"@,
        "jpg"@,
        "jpeg"@,
        "gif"@,
        "webp"@,
        "avif"@,
        "bmp"@,
        "tiff"@,
    ];
    assert(all[0] == "png"@ && all[1] == "jpg"@ && all[2] == "jpeg"@ && all[3] == "gif"@);
    assert(all[4] == "webp"@ && all[5] == "avif"@ && all[6] == "bmp"@ && all[7] == "tiff"@);
}

/// The variants of one format are one for each width that fits, in the order of the
/// widths: no width of nothing, none wider than the image, and the image itself not
/// once more.
pub proof fn law_variants_of_a_format(
    target: Seq<char>,
    format: VariantFormat,
    hints: Seq<u32>,
    width: u32,
)
    ensures
        variants_in(target, format, hints, width) == hints.filter(
            |h: u32| 0 < h <= width && (h < width || format != VariantFormat::Original),
        ).map_values(
            |h: u32| PlanView { format, width: h, output: variant_path(target, format, h) },
        ),
    decreases hints.len(),
{
    reveal(Seq::filter);
    let keep = |h: u32| 0 < h <= width && (h < width || format != VariantFormat::Original);
    let plan = |h: u32| PlanView { format, width: h, output: variant_path(target, format, h) };
    if hints.len() > 0 {
        law_variants_of_a_format(target, format, hints.drop_last(), width);
        let rest = hints.drop_last().filter(keep);
        assert(rest.push(hints.last()).map_values(plan) =~= rest.map_values(plan).push(
            plan(hints.last()),
        ));
    } else {
        assert(hints.filter(keep).map_values(plan) =~= Seq::empty());
    }
}

/// An image gets variants in its own format, then in WebP where that is asked for, then
/// in AVIF where that is asked for; each at the configured widths, in rising order, and
/// at its own width.
pub proof fn law_variants_of_an_image(target: Seq<char>, config: ImageBuildConfig, width: u32)
    ensures
        ({
            let hints = distinct_widths(config.widths@) + seq![width];
            planned_variants(target, config, width) == variants_in(
                target,
                VariantFormat::Original,
                hints,
                width,
            ) + (if config.generate_webp {
                variants_in(target, VariantFormat::Webp, hints, width)
            } else {
                Seq::empty()
            }) + (if config.generate_avif {
                variants_in(target, VariantFormat::Avif, hints, width)
            } else {
                Seq::empty()
            })
        }),
{
    let hints = distinct_widths(config.widths@).push(width);
    assert(hints =~= distinct_widths(config.widths@) + seq![width]);
    let all = formats_of(config);
    reveal_with_fuel(variants_for, 4);
    let a = variants_in(target, VariantFormat::Original, hints, width);
    let b = variants_in(target, VariantFormat::Webp, hints, width);
    let c = variants_in(target, VariantFormat::Avif, hints, width);
    let one = seq![VariantFormat::Original];
    assert(one.drop_last() =~= Seq::empty());
    assert(variants_for(target, one, hints, width) =~= a);
    if config.generate_webp && config.generate_avif {
        assert(all =~= seq![VariantFormat::Original, VariantFormat::Webp, VariantFormat::Avif]);
        assert(all.drop_last() =~= seq![VariantFormat::Original, VariantFormat::Webp]);
        assert(all.drop_last().drop_last() =~= one);
        assert(planned_variants(target, config, width) =~= a + b + c);
    } else if config.generate_webp {
        assert(all =~= seq![VariantFormat::Original, VariantFormat::Webp]);
        assert(all.drop_last() =~= one);
        assert(planned_variants(target, config, width) =~= a + b + Seq::<PlanView>::empty());
    } else if config.generate_avif {
        assert(all =~= seq![VariantFormat::Original, VariantFormat::Avif]);
        assert(all.drop_last() =~= one);
        assert(planned_variants(target, config, width) =~= a + Seq::<PlanView>::empty() + c);
    } else {
        assert(all =~= one);
        assert(planned_variants(target, config, width) =~= a + Seq::<PlanView>::empty()
            + Seq::<PlanView>::empty());
    }
}

/// A variant stands beside its image, under the name of the image with the width behind
/// it; in the extension of the image, or in that of its own format.
pub proof fn law_variant_names(
    target: Seq<char>,
    stem: Seq<char>,
    ext: Seq<char>,
    width: u32,
)
    requires
        fspath::file_stem(target) == Some(stem),
        fspath::extension(target) == Some(ext),
    ensures
        variant_path(target, VariantFormat::Original, width) == fspath::with_file_name(
            target,
            stem + "-w"@ + text::decimal(width as nat) + "."@ + ext,
        ),
        variant_path(target, VariantFormat::Webp, width) == fspath::with_file_name(
            target,
            stem + "-w"@ + text::decimal(width as nat) + "."@ + "webp"@,
        ),
        variant_path(target, VariantFormat::Avif, width) == fspath::with_file_name(
            target,
            stem + "-w"@ + text::decimal(width as nat) + "."@ + "avif"@,
        ),
{
}

/// What is kept of a variant is its format, its width and its file.
pub proof fn law_variant_records(p: PlanView)
    ensures
        variant_record(p).output == p.output,
        variant_record(p).width == Some(p.width),
        p.format == VariantFormat::Original ==> variant_record(p).format == "original"@,
        p.format == VariantFormat::Webp ==> variant_record(p).format == "webp"@,
        p.format == VariantFormat::Avif ==> variant_record(p).format == "avif"@,
{
}

/// A WebP image is between one and 16384 pixels wide and high.
pub proof fn law_webp_sizes(width: u32, height: u32)
    ensures
        webp_size(width, height) <==> 1 <= width <= 16384 && 1 <= height <= 16384,
{
}

/// A variant of an image without a name or an extension has a name all the same.
pub proof fn law_variants_without_a_name(target: Seq<char>, width: u32)
    ensures
        fspath::file_stem(target) is None && fspath::extension(target) is None ==> variant_path(
            target,
            VariantFormat::Original,
            width,
        ) == fspath::with_file_name(
            target,
            "image"@ + "-w"@ + text::decimal(width as nat) + "."@ + "img"@,
        ),
        fspath::file_stem(target) is Some && fspath::extension(target) is None ==> variant_path(
            target,
            VariantFormat::Original,
            width,
        ) == fspath::with_file_name(
            target,
            fspath::file_stem(target).unwrap() + "-w"@ + text::decimal(width as nat) + "."@ + "img"@,
        ),
{
}

} // verus!
