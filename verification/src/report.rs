//! The structured payload handed to the external render-delegate, and
//! the plain-text manifest: pure, fully specified views of a finished
//! batch.

use vstd::prelude::*;
use vstd::string::*;
use crate::scan::{
    Asset, AssetView, AssetKind, opt_view, human_size_of, format_binary_size, resolution_spec,
};
use crate::text::{dec_digits, zero_pad, push_char, str_to_chars, u64_to_dec};

verus! {

/// Settings for the rendered document.
pub struct PdfConfig {
    pub client: String,
    pub title: Option<String>,
    pub date: String,
    pub columns: u8,
    pub auto_orient: bool,
}

/// Batch totals shown on the cover.
pub struct Summary {
    pub total_files: usize,
    pub total_size: String,
    pub image_count: usize,
    pub video_count: usize,
}

/// One asset line of the payload, everything already rendered as text.
pub struct AssetEntry {
    pub filename: String,
    pub kind: String,
    pub resolution: String,
    pub format: String,
    pub human_size: String,
    pub thumbnail: Option<String>,
    pub color_space: Option<String>,
    pub duration: Option<String>,
}

/// The whole payload for the render-delegate.
pub struct TemplateData {
    pub client: String,
    pub title: Option<String>,
    pub date: String,
    pub columns: u8,
    pub summary: Summary,
    pub assets: Vec<AssetEntry>,
}

impl AssetKind {
    /// Capitalized label used in the document and the manifest.
    pub fn display_name(&self) -> (r: &'static str)
        ensures
            *self is Image ==> r@ == "Image"@,
            *self is Video ==> r@ == "Video"@,
    {
        match self {
            AssetKind::Image => "Image",
            AssetKind::Video => "Video",
        }
    }
}

/// `M:SS` with the seconds zero-padded to two digits.
pub open spec fn duration_display(secs: u64) -> Seq<char> {
    dec_digits(secs as nat / 60) + seq![':'] + zero_pad(dec_digits(secs as nat % 60), 2)
}

/// Renders whole seconds as `M:SS`.
pub fn format_duration(secs: u64) -> (r: String)
    ensures
        r@ == duration_display(secs),
{
    let mut s = u64_to_dec(secs / 60);
    push_char(&mut s, ':');
    let rest = u64_to_dec(secs % 60);
    let rl = rest.as_str().unicode_len();
    if rl < 2 {
        push_char(&mut s, '0');
        proof {
            assert(crate::text::zeros(0) =~= Seq::<char>::empty());
            assert(crate::text::zeros(1) =~= seq!['0']);
        }
    }
    let out = s.concat(rest.as_str());
    proof {
        if rl >= 2 {
            assert(out@ =~= dec_digits(secs as nat / 60) + seq![':'] + dec_digits(
                secs as nat % 60,
            ));
        } else {
            assert(out@ =~= dec_digits(secs as nat / 60) + seq![':'] + (crate::text::zeros(1)
                + dec_digits(secs as nat % 60)));
        }
    }
    out
}

/// Sum of the file sizes of a batch.
pub open spec fn total_size_spec(s: Seq<AssetView>) -> int
    decreases s.len(),
{
    if s.len() == 0 {
        0
    } else {
        total_size_spec(s.drop_last()) + s.last().file_size
    }
}

pub proof fn lemma_total_size_nonneg(s: Seq<AssetView>)
    ensures
        total_size_spec(s) >= 0,
    decreases s.len(),
{
    if s.len() > 0 {
        lemma_total_size_nonneg(s.drop_last());
    }
}

/// How many records carry the given kind.
pub open spec fn count_kind(s: Seq<AssetView>, k: AssetKind) -> int {
    s.filter(|a: AssetView| a.kind == k).len() as int
}

/// The rendered text entry of one record.
pub open spec fn entry_ok(e: AssetEntry, a: AssetView) -> bool {
    &&& e.filename@ == a.filename
    &&& (a.kind is Image ==> e.kind@ == "Image"@)
    &&& (a.kind is Video ==> e.kind@ == "Video"@)
    &&& e.resolution@ == resolution_spec(a.width, a.height)
    &&& e.format@ == a.format
    &&& e.human_size@ == human_size_of(a.file_size)
    &&& opt_view(e.thumbnail) == (match a.thumbnail_name {
        Option::Some(n) => Option::Some("thumbs/"@ + n),
        Option::None => Option::None::<Seq<char>>,
    })
    &&& opt_view(e.color_space) == a.color_space
    &&& opt_view(e.duration) == (match a.duration_secs {
        Option::Some(d) => Option::Some(duration_display(d)),
        Option::None => Option::None::<Seq<char>>,
    })
}

fn entry_of(a: &Asset) -> (e: AssetEntry)
    ensures
        entry_ok(e, a@),
{
    let thumbnail: Option<String> = match &a.thumbnail_name {
        Some(n) => {
            let t = String::from_str("thumbs/");
            Some(t.concat(n.as_str()))
        },
        None => None,
    };
    let duration: Option<String> = match &a.duration_secs {
        Some(d) => Some(format_duration(*d)),
        None => None,
    };
    let color_space: Option<String> = match &a.color_space {
        Some(c) => Some(String::from_str(c.as_str())),
        None => None,
    };
    AssetEntry {
        filename: String::from_str(a.filename.as_str()),
        kind: String::from_str(a.kind.display_name()),
        resolution: a.resolution(),
        format: String::from_str(a.format.as_str()),
        human_size: a.human_size(),
        thumbnail,
        color_space,
        duration,
    }
}

/// Builds the render payload: configuration copied through, exact
/// totals and per-kind counts, and one fully rendered entry per
/// record, in record order. Returns nothing when the combined byte
/// size cannot be represented.
#[verifier::loop_isolation(false)]
pub fn build_data(assets: &Vec<Asset>, config: &PdfConfig) -> (r: Option<TemplateData>)
    ensures
        r is Some <==> total_size_spec(assets@.map_values(|a: Asset| a@)) <= u64::MAX,
        r matches Some(t) ==> {
            &&& t.client@ == config.client@
            &&& opt_view(t.title) == opt_view(config.title)
            &&& t.date@ == config.date@
            &&& t.columns == config.columns
            &&& t.summary.total_files == assets@.len()
            &&& t.summary.total_size@ == human_size_of(
                total_size_spec(assets@.map_values(|a: Asset| a@)) as u64,
            )
            &&& t.summary.image_count == count_kind(
                assets@.map_values(|a: Asset| a@),
                AssetKind::Image,
            )
            &&& t.summary.video_count == count_kind(
                assets@.map_values(|a: Asset| a@),
                AssetKind::Video,
            )
            &&& t.assets@.len() == assets@.len()
            &&& forall|k: int|
                0 <= k < assets@.len() ==> entry_ok(#[trigger] t.assets@[k], assets@[k]@)
        },
{
    let ghost av = assets@.map_values(|a: Asset| a@);
    let ghost pi = |a: AssetView| a.kind == AssetKind::Image;
    let ghost pv = |a: AssetView| a.kind == AssetKind::Video;
    let n = assets.len();
    let mut total: u64 = 0;
    let mut image_count: usize = 0;
    let mut video_count: usize = 0;
    let mut entries: Vec<AssetEntry> = Vec::new();
    proof {
        reveal_with_fuel(Seq::<_>::filter, 2);
        assert(av.take(0) =~= Seq::<AssetView>::empty());
    }
    for i in 0..n
        invariant
            n == assets@.len(),
            av == assets@.map_values(|a: Asset| a@),
            total == total_size_spec(av.take(i as int)),
            image_count == count_kind(av.take(i as int), AssetKind::Image),
            video_count == count_kind(av.take(i as int), AssetKind::Video),
            image_count + video_count <= i,
            entries@.len() == i,
            forall|k: int| 0 <= k < i ==> entry_ok(#[trigger] entries@[k], assets@[k]@),
    {
        proof {
            reveal_with_fuel(Seq::<_>::filter, 2);
            assert(av.take(i + 1).drop_last() =~= av.take(i as int));
            assert(av.take(i + 1).last() == av[i as int]);
            assert(av[i as int] == assets@[i as int]@);
            lemma_total_size_nonneg(av.take(i as int));
        }
        let size = assets[i].file_size;
        if total > u64::MAX - size {
            proof {
                lemma_total_prefix(av, i + 1);
            }
            return None;
        }
        total = total + size;
        match assets[i].kind {
            AssetKind::Image => {
                image_count = image_count + 1;
                proof {
                    assert(av.take(i + 1).filter(pi) =~= av.take(i as int).filter(pi).push(
                        av[i as int],
                    ));
                    assert(av.take(i + 1).filter(pv) =~= av.take(i as int).filter(pv));
                }
            },
            AssetKind::Video => {
                video_count = video_count + 1;
                proof {
                    assert(av.take(i + 1).filter(pv) =~= av.take(i as int).filter(pv).push(
                        av[i as int],
                    ));
                    assert(av.take(i + 1).filter(pi) =~= av.take(i as int).filter(pi));
                }
            },
        }
        entries.push(entry_of(&assets[i]));
    }
    proof {
        assert(av.take(n as int) =~= av);
    }
    let summary = Summary {
        total_files: n,
        total_size: format_binary_size(total),
        image_count,
        video_count,
    };
    Some(
        TemplateData {
            client: String::from_str(config.client.as_str()),
            title: match &config.title {
                Some(t) => Some(String::from_str(t.as_str())),
                None => None,
            },
            date: String::from_str(config.date.as_str()),
            columns: config.columns,
            summary,
            assets: entries,
        },
    )
}

/// A prefix of the batch never outweighs the whole batch.
pub proof fn lemma_total_prefix(s: Seq<AssetView>, m: int)
    requires
        0 <= m <= s.len(),
    ensures
        total_size_spec(s.take(m)) <= total_size_spec(s),
    decreases s.len() - m,
{
    if m < s.len() {
        lemma_total_prefix(s, m + 1);
        assert(s.take(m + 1).drop_last() =~= s.take(m));
        assert(s.take(m + 1).last() == s[m]);
    } else {
        assert(s.take(m) =~= s);
    }
}

} // verus!

verus! {

pub open spec fn kind_display(k: AssetKind) -> Seq<char> {
    if k is Image {
        "Image"@
    } else {
        "Video"@
    }
}

/// One tab-separated manifest row of a record.
pub open spec fn manifest_line_spec(a: AssetView) -> Seq<char> {
    a.filename + seq!['\t'] + kind_display(a.kind) + seq!['\t'] + resolution_spec(a.width, a.height)
        + seq!['\t'] + a.format + seq!['\t'] + human_size_of(a.file_size) + seq!['\t'] + (
    match a.color_space {
        Option::Some(c) => c,
        Option::None => seq!['\u{2014}'],
    })
}

/// Renders one manifest row: filename, kind, resolution, format,
/// size and color space, tab-separated.
pub fn manifest_line(a: &Asset) -> (r: String)
    ensures
        r@ == manifest_line_spec(a@),
{
    let mut s = String::from_str(a.filename.as_str());
    push_char(&mut s, '\t');
    let mut s = s.concat(a.kind.display_name());
    push_char(&mut s, '\t');
    let res = a.resolution();
    let mut s = s.concat(res.as_str());
    push_char(&mut s, '\t');
    let mut s = s.concat(a.format.as_str());
    push_char(&mut s, '\t');
    let hs = a.human_size();
    let mut s = s.concat(hs.as_str());
    push_char(&mut s, '\t');
    let out = match &a.color_space {
        Some(c) => s.concat(c.as_str()),
        None => {
            let mut t = s;
            push_char(&mut t, '\u{2014}');
            t
        },
    };
    proof {
        assert(out@ =~= manifest_line_spec(a@));
    }
    out
}

/// All manifest rows, one per record, in record order.
pub fn manifest_lines(assets: &Vec<Asset>) -> (r: Vec<String>)
    ensures
        r@.len() == assets@.len(),
        forall|k: int| 0 <= k < assets@.len() ==> #[trigger] r@[k]@ == manifest_line_spec(
            assets@[k]@,
        ),
{
    let n = assets.len();
    let mut r: Vec<String> = Vec::new();
    for i in 0..n
        invariant
            n == assets@.len(),
            r@.len() == i,
            forall|k: int| 0 <= k < i ==> #[trigger] r@[k]@ == manifest_line_spec(assets@[k]@),
    {
        r.push(manifest_line(&assets[i]));
    }
    r
}

/// What std's str::to_lowercase returns; the result depends on the
/// characters alone.
pub uninterp spec fn lower_of(s: Seq<char>) -> Seq<char>;

/// Relies on std's str::to_lowercase: a pure, locale-independent
/// mapping of the characters.
#[verifier::external_body]
fn lowercase(s: &str) -> (r: String)
    ensures
        r@ == lower_of(s@),
{
    s.to_lowercase()
}

/// The client slug: the lower-cased name with spaces turned to dashes.
pub open spec fn slug_spec(client: Seq<char>) -> Seq<char> {
    lower_of(client).map_values(
        |c: char| if c == ' ' {
            '-'
        } else {
            c
        },
    )
}

/// The default document name: `SLUG-delivery-DATE.pdf`.
pub fn default_output_name(client: &str, date: &str) -> (r: String)
    ensures
        r@ == slug_spec(client@) + "-delivery-"@ + date@ + ".pdf"@,
{
    let low = lowercase(client);
    let v = str_to_chars(low.as_str());
    let n = v.len();
    let mut s = String::new();
    for i in 0..n
        invariant
            n == v@.len(),
            v@ == lower_of(client@),
            s@ == v@.take(i as int).map_values(
                |c: char| if c == ' ' {
                    '-'
                } else {
                    c
                },
            ),
    {
        let c = v[i];
        push_char(
            &mut s,
            if c == ' ' {
                '-'
            } else {
                c
            },
        );
        proof {
            assert(s@ =~= v@.take(i + 1).map_values(
                |c: char| if c == ' ' {
                    '-'
                } else {
                    c
                },
            ));
        }
    }
    proof {
        assert(v@.take(n as int) =~= v@);
    }
    let s = s.concat("-delivery-");
    let s = s.concat(date);
    let s = s.concat(".pdf");
    s
}

} // verus!
