//! Asset discovery and per-asset processing: classification by
//! extension, natural-order discovery with stable indices, and the
//! per-item outcome rules with their failure-isolation guarantees.

use vstd::prelude::*;
use vstd::string::*;
use vstd::multiset::Multiset;
use crate::text::{
    is_digit_char, dec_digits, zero_pad, upper_seq, to_ascii_upper, u64_to_dec, push_char,
    str_eq, str_to_chars, to_lower_char, lower_char, digits_val, digit_val,
};
use crate::natural::{nat_cmp, lex_cmp, natural_compare, lex_compare};

verus! {

/// The two supported media categories, decided by file extension alone.
#[derive(Clone, Copy, Debug, PartialEq, Eq, Structural)]
pub enum AssetKind {
    Image,
    Video,
}

impl AssetKind {
    /// Lower-case label used in events and in the rendered report.
    pub fn label(&self) -> (r: &'static str)
        ensures
            *self is Image ==> r@ == "image"@,
            *self is Video ==> r@ == "video"@,
    {
        match self {
            AssetKind::Image => "image",
            AssetKind::Video => "video",
        }
    }
}

/// The extension table: what `classify` maps to which kind, stated
/// over the lower-cased extension.
pub open spec fn classify_spec(ext: Seq<char>) -> Option<AssetKind> {
    let low = ext.map_values(|c: char| to_lower_char(c));
    if low == "jpg"@ || low == "jpeg"@ || low == "png"@ || low == "tiff"@ || low == "tif"@
        || low == "webp"@ {
        Some(AssetKind::Image)
    } else if low == "mp4"@ || low == "mov"@ || low == "mxf"@ {
        Some(AssetKind::Video)
    } else {
        None
    }
}

/// Lower-cases `s` (ASCII letters only).
fn to_ascii_lower(s: &str) -> (r: String)
    ensures
        r@ == s@.map_values(|c: char| to_lower_char(c)),
{
    let n = s.unicode_len();
    let mut r = String::new();
    for i in 0..n
        invariant
            n == s@.len(),
            r@ == s@.take(i as int).map_values(|c: char| to_lower_char(c)),
    {
        push_char(&mut r, lower_char(s.get_char(i)));
        proof {
            assert(r@ =~= s@.take(i + 1).map_values(|c: char| to_lower_char(c)));
        }
    }
    proof {
        assert(s@.take(n as int) =~= s@);
    }
    r
}

/// Classifies a filename extension, case-insensitively, against the
/// fixed table of supported image and video extensions.
pub fn classify(ext: &str) -> (r: Option<AssetKind>)
    ensures
        r == classify_spec(ext@),
{
    let low = to_ascii_lower(ext);
    let l = low.as_str();
    if str_eq(l, "jpg") || str_eq(l, "jpeg") || str_eq(l, "png") || str_eq(l, "tiff") || str_eq(
        l,
        "tif",
    ) || str_eq(l, "webp") {
        Some(AssetKind::Image)
    } else if str_eq(l, "mp4") || str_eq(l, "mov") || str_eq(l, "mxf") {
        Some(AssetKind::Video)
    } else {
        None
    }
}

} // verus!

verus! {

/// Everything a finished record can say about one asset. Optional
/// fields stay absent when the probe could not supply them; that is a
/// valid terminal state, not an error.
#[derive(Debug)]
pub struct Asset {
    pub filename: String,
    pub kind: AssetKind,
    pub width: Option<u32>,
    pub height: Option<u32>,
    pub file_size: u64,
    pub format: String,
    pub color_space: Option<String>,
    pub duration_secs: Option<u64>,
    pub codec: Option<String>,
    pub thumbnail_name: Option<String>,
}

/// The mathematical shadow of an `Asset`: every text field as a
/// character sequence.
pub ghost struct AssetView {
    pub filename: Seq<char>,
    pub kind: AssetKind,
    pub width: Option<u32>,
    pub height: Option<u32>,
    pub file_size: u64,
    pub format: Seq<char>,
    pub color_space: Option<Seq<char>>,
    pub duration_secs: Option<u64>,
    pub codec: Option<Seq<char>>,
    pub thumbnail_name: Option<Seq<char>>,
}

pub open spec fn opt_view(s: Option<String>) -> Option<Seq<char>> {
    match s {
        Option::None => Option::None,
        Option::Some(x) => Option::Some(x@),
    }
}

impl View for Asset {
    type V = AssetView;

    open spec fn view(&self) -> AssetView {
        AssetView {
            filename: self.filename@,
            kind: self.kind,
            width: self.width,
            height: self.height,
            file_size: self.file_size,
            format: self.format@,
            color_space: opt_view(self.color_space),
            duration_secs: self.duration_secs,
            codec: opt_view(self.codec),
            thumbnail_name: opt_view(self.thumbnail_name),
        }
    }
}

/// What `resolution` renders: `WIDTHxHEIGHT`, or an em dash when
/// either dimension is unknown.
pub open spec fn resolution_spec(width: Option<u32>, height: Option<u32>) -> Seq<char> {
    match (width, height) {
        (Option::Some(w), Option::Some(h)) => dec_digits(w as nat) + seq!['x'] + dec_digits(
            h as nat,
        ),
        _ => seq!['\u{2014}'],
    }
}

/// The uniform thumbnail file name for a discovery index: the index in
/// decimal, left-padded with zeros to at least four digits, then `.jpg`.
pub open spec fn thumb_name_spec(index: nat) -> Seq<char> {
    zero_pad(dec_digits(index), 4) + ".jpg"@
}

/// Builds the thumbnail file name for an index. The same index always
/// yields the same name, and distinct indices yield distinct names.
pub fn thumb_name(index: usize) -> (r: String)
    ensures
        r@ == thumb_name_spec(index as nat),
{
    let digits = u64_to_dec(index as u64);
    let mut r = String::new();
    let len = digits.as_str().unicode_len();
    let mut pad: usize = 0;
    let pad_total: usize = if len >= 4 {
        0
    } else {
        4 - len
    };
    while pad < pad_total
        invariant
            pad <= pad_total,
            r@ == crate::text::zeros(pad as nat),
        decreases pad_total - pad,
    {
        push_char(&mut r, '0');
        pad = pad + 1;
    }
    let mut out = r.concat(digits.as_str());
    proof {
        if len >= 4 {
            assert(crate::text::zeros(0) =~= Seq::<char>::empty());
            assert(out@ =~= dec_digits(index as nat));
        }
        assert(out@ == zero_pad(dec_digits(index as nat), 4));
    }
    let out2 = out.concat(".jpg");
    out2
}

impl Asset {
    /// `WIDTHxHEIGHT`, or an em dash when either dimension is unknown.
    pub fn resolution(&self) -> (r: String)
        ensures
            r@ == resolution_spec(self.width, self.height),
    {
        match (self.width, self.height) {
            (Option::Some(w), Option::Some(h)) => {
                let mut s = u64_to_dec(w as u64);
                push_char(&mut s, 'x');
                let t = u64_to_dec(h as u64);
                let out = s.concat(t.as_str());
                proof {
                    assert(out@ =~= dec_digits(w as nat) + seq!['x'] + dec_digits(h as nat));
                }
                out
            },
            _ => {
                let mut s = String::new();
                push_char(&mut s, '\u{2014}');
                proof {
                    assert(s@ =~= seq!['\u{2014}']);
                }
                s
            },
        }
    }

    /// Human-readable size of the asset, in binary units.
    pub fn human_size(&self) -> (r: String)
        ensures
            r@ == human_size_of(self.file_size),
    {
        format_binary_size(self.file_size)
    }
}

/// What humansize renders for a byte count in binary units; the result
/// is a function of the count alone.
pub uninterp spec fn human_size_of(n: u64) -> Seq<char>;

/// Relies on humansize::format_size with the BINARY options: a pure
/// rendering of the byte count, depending on nothing else.
#[verifier::external_body]
pub(crate) fn format_binary_size(n: u64) -> (r: String)
    ensures
        r@ == human_size_of(n),
{
    humansize::format_size(n, humansize::BINARY)
}

} // verus!

verus! {

/// One file handed in by the directory walk: its full path, its final
/// name component, and every path component under the scanned root.
pub struct FoundFile {
    pub path: String,
    pub name: String,
    pub components: Vec<String>,
}

/// Why discovery can fail.
#[derive(Clone, Copy, Debug, PartialEq, Eq, Structural)]
pub enum ScanError {
    NotADirectory,
    NoSupportedAssets,
}

/// One discovered asset: its stable discovery index is its position in
/// the natural-sort order and the key every later event uses for it.
#[derive(Debug)]
pub struct DiscoveredAsset {
    pub path: String,
    pub name: String,
    pub kind: AssetKind,
    pub index: usize,
}

pub open spec fn starts_hidden(s: Seq<char>) -> bool {
    s.len() > 0 && s[0] == '.'
}

/// A file is hidden when any of its path components starts with a dot.
pub open spec fn hidden_spec(f: FoundFile) -> bool {
    exists|i: int| 0 <= i < f.components@.len() && starts_hidden(#[trigger] f.components@[i]@)
}

/// Index of the last `.` in `s`, or `-1` when there is none.
pub open spec fn last_dot(s: Seq<char>) -> int
    decreases s.len(),
{
    if s.len() == 0 {
        -1
    } else if s.last() == '.' {
        s.len() - 1
    } else {
        last_dot(s.drop_last())
    }
}

pub proof fn lemma_last_dot_is(s: Seq<char>, d: int)
    requires
        0 <= d < s.len(),
        s[d] == '.',
        forall|x: int| d < x < s.len() ==> #[trigger] s[x] != '.',
    ensures
        last_dot(s) == d,
    decreases s.len(),
{
    if s.last() == '.' {
        assert(d == s.len() - 1);
    } else {
        assert(d < s.len() - 1);
        assert(forall|x: int|
            d < x < s.drop_last().len() ==> #[trigger] s.drop_last()[x] == s[x] && s.drop_last()[x]
                != '.');
        assert(s.drop_last()[d] == s[d]);
        lemma_last_dot_is(s.drop_last(), d);
    }
}

pub proof fn lemma_no_dot(s: Seq<char>)
    requires
        forall|x: int| 0 <= x < s.len() ==> #[trigger] s[x] != '.',
    ensures
        last_dot(s) == -1,
    decreases s.len(),
{
    if s.len() > 0 {
        assert(forall|x: int|
            0 <= x < s.drop_last().len() ==> #[trigger] s.drop_last()[x] == s[x] && s.drop_last()[x]
                != '.');
        lemma_no_dot(s.drop_last());
    }
}

/// The extension of a file name: what follows the last dot, provided
/// that dot is not the leading character.
pub open spec fn ext_of(name: Seq<char>) -> Option<Seq<char>> {
    if last_dot(name) >= 1 {
        Option::Some(name.skip(last_dot(name) + 1))
    } else {
        Option::None
    }
}

/// Extracts the extension of a file name, if any.
pub fn extension_of(name: &str) -> (r: Option<String>)
    ensures
        r is Some <==> ext_of(name@) is Some,
        r matches Some(e) ==> ext_of(name@) matches Some(x) && e@ == x,
{
    let v = str_to_chars(name);
    let n = v.len();
    let mut k = n;
    while k > 0
        invariant
            k <= n,
            n == v@.len(),
            v@ == name@,
            forall|x: int| k <= x < n ==> #[trigger] v@[x] != '.',
        decreases k,
    {
        if v[k - 1] == '.' {
            proof {
                lemma_last_dot_is(name@, k - 1);
            }
            if k - 1 >= 1 {
                let mut e = String::new();
                let mut p = k;
                while p < n
                    invariant
                        k <= p <= n,
                        n == v@.len(),
                        v@ == name@,
                        e@ == name@.subrange(k as int, p as int),
                    decreases n - p,
                {
                    push_char(&mut e, v[p]);
                    proof {
                        assert(e@ =~= name@.subrange(k as int, p + 1));
                    }
                    p = p + 1;
                }
                proof {
                    assert(e@ =~= name@.skip(k as int));
                }
                return Some(e);
            } else {
                return None;
            }
        }
        k = k - 1;
    }
    proof {
        lemma_no_dot(name@);
    }
    None
}

/// Whether a walked file takes part in discovery, and as which kind:
/// not hidden, has an extension, and the extension is in the table.
pub open spec fn eligible(f: FoundFile) -> Option<AssetKind> {
    if hidden_spec(f) {
        Option::None
    } else {
        match ext_of(f.name@) {
            Option::None => Option::None,
            Option::Some(e) => classify_spec(e),
        }
    }
}

/// Decides `eligible` for one walked file.
fn eligible_exec(f: &FoundFile) -> (r: Option<AssetKind>)
    ensures
        r == eligible(*f),
{
    let mut i: usize = 0;
    let n = f.components.len();
    while i < n
        invariant
            i <= n,
            n == f.components@.len(),
            forall|x: int| 0 <= x < i ==> !starts_hidden(#[trigger] f.components@[x]@),
        decreases n - i,
    {
        let c = &f.components[i];
        let cl = c.as_str().unicode_len();
        if cl > 0 && c.as_str().get_char(0) == '.' {
            proof {
                assert(starts_hidden(f.components@[i as int]@));
            }
            return None;
        }
        i = i + 1;
    }
    proof {
        assert(!hidden_spec(*f));
    }
    match extension_of(f.name.as_str()) {
        None => None,
        Some(e) => classify(e.as_str()),
    }
}

} // verus!

verus! {

/// The discovery ordering: natural order on the file name, ties broken
/// by plain lexicographic order on the full path.
pub open spec fn disc_le(x: DiscoveredAsset, y: DiscoveredAsset) -> bool {
    nat_cmp(x.name@, y.name@) < 0 || (nat_cmp(x.name@, y.name@) == 0 && lex_cmp(x.path@, y.path@)
        <= 0)
}

pub open spec fn sorted_disc(s: Seq<DiscoveredAsset>) -> bool {
    forall|i: int, j: int| 0 <= i < j < s.len() ==> disc_le(#[trigger] s[i], #[trigger] s[j])
}

/// The part of a discovered asset that identifies it independently of
/// its index.
pub open spec fn disc_key(d: DiscoveredAsset) -> (Seq<char>, Seq<char>, AssetKind) {
    (d.path@, d.name@, d.kind)
}

pub proof fn lemma_disc_le_total(x: DiscoveredAsset, y: DiscoveredAsset)
    ensures
        disc_le(x, y) || disc_le(y, x),
{
    crate::natural::lemma_nat_cmp_antisym(x.name@, y.name@);
    crate::natural::lemma_lex_cmp_antisym(x.path@, y.path@);
}

pub proof fn lemma_disc_le_trans(x: DiscoveredAsset, y: DiscoveredAsset, z: DiscoveredAsset)
    requires
        disc_le(x, y),
        disc_le(y, z),
    ensures
        disc_le(x, z),
{
    crate::natural::lemma_nat_cmp_trans(x.name@, y.name@, z.name@);
    if nat_cmp(x.name@, y.name@) == 0 && nat_cmp(y.name@, z.name@) == 0 {
        crate::natural::lemma_lex_cmp_trans(x.path@, y.path@, z.path@);
    }
}

/// Decides `disc_le` for two discovered assets.
fn disc_le_exec(x: &DiscoveredAsset, y: &DiscoveredAsset) -> (r: bool)
    ensures
        r == disc_le(*x, *y),
{
    let n = natural_compare(x.name.as_str(), y.name.as_str());
    if n < 0 {
        true
    } else if n > 0 {
        false
    } else {
        let p = lex_compare(x.path.as_str(), y.path.as_str());
        p <= 0
    }
}

/// Inserting anywhere in a sequence adds exactly one occurrence to its
/// multiset.
pub proof fn lemma_insert_multiset<A>(s: Seq<A>, p: int, x: A)
    requires
        0 <= p <= s.len(),
    ensures
        s.insert(p, x).to_multiset() =~= s.to_multiset().insert(x),
{
    broadcast use vstd::seq_lib::group_to_multiset_ensures;

    let a = s.take(p);
    let b = s.skip(p);
    assert(s =~= a + b);
    assert(s.insert(p, x) =~= a + (seq![x] + b));
    vstd::seq_lib::lemma_multiset_commutative(a, b);
    vstd::seq_lib::lemma_multiset_commutative(a, seq![x] + b);
    vstd::seq_lib::lemma_multiset_commutative(seq![x], b);
    assert(seq![x] =~= Seq::<A>::empty().push(x));
    assert(seq![x].to_multiset() =~= Multiset::<A>::empty().insert(x));
}

/// Inserts one asset into an already sorted vector, keeping it sorted.
#[verifier::loop_isolation(false)]
fn insert_sorted(out: &mut Vec<DiscoveredAsset>, x: DiscoveredAsset)
    requires
        sorted_disc(old(out)@),
    ensures
        final(out)@.len() == old(out)@.len() + 1,
        sorted_disc(final(out)@),
        final(out)@.map_values(|d: DiscoveredAsset| disc_key(d)).to_multiset() == old(
            out,
        )@.map_values(|d: DiscoveredAsset| disc_key(d)).to_multiset().insert(disc_key(x)),
{
    let ghost s0 = out@;
    let mut p: usize = 0;
    while p < out.len() && disc_le_exec(&out[p], &x)
        invariant
            p <= out@.len(),
            forall|k: int| 0 <= k < p ==> disc_le(#[trigger] out@[k], x),
        decreases out@.len() - p,
    {
        p = p + 1;
    }
    proof {
        if p < out@.len() {
            lemma_disc_le_total(out@[p as int], x);
            assert forall|k: int| p <= k < out@.len() implies disc_le(x, #[trigger] out@[k]) by {
                if k > p {
                    lemma_disc_le_trans(x, out@[p as int], out@[k]);
                }
            }
        }
    }
    out.insert(p, x);
    proof {
        let s1 = out@;
        assert forall|i: int, j: int| 0 <= i < j < s1.len() implies disc_le(
            #[trigger] s1[i],
            #[trigger] s1[j],
        ) by {
            if j < p {
                assert(s1[i] == s0[i] && s1[j] == s0[j]);
            } else if i > p {
                assert(s1[i] == s0[i - 1] && s1[j] == s0[j - 1]);
            } else if i < p && j == p {
                assert(s1[i] == s0[i] && s1[j] == x);
            } else if i == p {
                assert(s1[i] == x && s1[j] == s0[j - 1]);
            } else {
                // i < p < j
                assert(s1[i] == s0[i] && s1[j] == s0[j - 1]);
            }
        }
        lemma_insert_multiset(
            s0.map_values(|d: DiscoveredAsset| disc_key(d)),
            p as int,
            disc_key(x),
        );
        assert(s1.map_values(|d: DiscoveredAsset| disc_key(d)) =~= s0.map_values(
            |d: DiscoveredAsset| disc_key(d),
        ).insert(p as int, disc_key(x)));
    }
}

/// Sorts the discovered assets by `disc_le`.
#[verifier::loop_isolation(false)]
fn sort_discovered(v: Vec<DiscoveredAsset>) -> (out: Vec<DiscoveredAsset>)
    ensures
        out@.len() == v@.len(),
        sorted_disc(out@),
        out@.map_values(|d: DiscoveredAsset| disc_key(d)).to_multiset() == v@.map_values(
            |d: DiscoveredAsset| disc_key(d),
        ).to_multiset(),
{
    broadcast use vstd::seq_lib::group_to_multiset_ensures;

    let ghost v0 = v@;
    let mut v = v;
    let mut out: Vec<DiscoveredAsset> = Vec::new();
    while v.len() > 0
        invariant
            sorted_disc(out@),
            out@.len() + v@.len() == v0.len(),
            out@.map_values(|d: DiscoveredAsset| disc_key(d)).to_multiset().add(
                v@.map_values(|d: DiscoveredAsset| disc_key(d)).to_multiset(),
            ) == v0.map_values(|d: DiscoveredAsset| disc_key(d)).to_multiset(),
        decreases v@.len(),
    {
        let ghost vpre = v@;
        let x = v.pop().unwrap();
        proof {
            assert(vpre =~= v@.push(x));
            assert(vpre.map_values(|d: DiscoveredAsset| disc_key(d)) =~= v@.map_values(
                |d: DiscoveredAsset| disc_key(d),
            ).push(disc_key(x)));
        }
        insert_sorted(&mut out, x);
        proof {
            assert(out@.map_values(|d: DiscoveredAsset| disc_key(d)).to_multiset().add(
                v@.map_values(|d: DiscoveredAsset| disc_key(d)).to_multiset(),
            ) =~= v0.map_values(|d: DiscoveredAsset| disc_key(d)).to_multiset());
        }
    }
    proof {
        assert(v@.map_values(|d: DiscoveredAsset| disc_key(d)).to_multiset()
            =~= Multiset::<(Seq<char>, Seq<char>, AssetKind)>::empty());
        assert(out@.map_values(|d: DiscoveredAsset| disc_key(d)).to_multiset() =~= v0.map_values(
            |d: DiscoveredAsset| disc_key(d),
        ).to_multiset());
    }
    out
}

} // verus!

verus! {

/// The selection that discovery keeps from the walked files: the key
/// of every eligible file, in walk order.
pub open spec fn selected_keys(entries: Seq<FoundFile>) -> Seq<(Seq<char>, Seq<char>, AssetKind)> {
    entries.filter(|f: FoundFile| eligible(f) is Some).map_values(
        |f: FoundFile| (f.path@, f.name@, eligible(f).unwrap()),
    )
}

/// Keeps the eligible files, as discovered assets with a placeholder
/// index, in walk order.
#[verifier::loop_isolation(false)]
fn filter_eligible(entries: &Vec<FoundFile>) -> (out: Vec<DiscoveredAsset>)
    ensures
        out@.map_values(|d: DiscoveredAsset| disc_key(d)) == selected_keys(entries@),
{
    let ghost pred = |f: FoundFile| eligible(f) is Some;
    let mut out: Vec<DiscoveredAsset> = Vec::new();
    let n = entries.len();
    proof {
        reveal_with_fuel(Seq::<_>::filter, 2);
        assert(entries@.take(0) =~= Seq::<FoundFile>::empty());
        assert(out@.map_values(|d: DiscoveredAsset| disc_key(d)) =~= selected_keys(
            entries@.take(0),
        ));
    }
    for i in 0..n
        invariant
            n == entries@.len(),
            out@.map_values(|d: DiscoveredAsset| disc_key(d)) == selected_keys(entries@.take(i as int)),
    {
        let f = &entries[i];
        let k = eligible_exec(f);
        proof {
            reveal_with_fuel(Seq::<_>::filter, 2);
            assert(entries@.take(i + 1).drop_last() =~= entries@.take(i as int));
            assert(entries@.take(i + 1).last() == entries@[i as int]);
        }
        match k {
            Some(kind) => {
                let d = DiscoveredAsset {
                    path: String::from_str(f.path.as_str()),
                    name: String::from_str(f.name.as_str()),
                    kind,
                    index: 0,
                };
                proof {
                    assert(disc_key(d) == (f.path@, f.name@, eligible(*f).unwrap()));
                }
                let ghost out_pre = out@;
                out.push(d);
                proof {
                    reveal_with_fuel(Seq::<_>::filter, 2);
                    assert(pred(entries@[i as int]));
                    assert(entries@.take(i + 1).filter(pred) =~= entries@.take(i as int).filter(
                        pred,
                    ).push(entries@[i as int]));
                    assert(selected_keys(entries@.take(i + 1)) =~~= selected_keys(
                        entries@.take(i as int),
                    ).push(disc_key(d)));
                    assert(out@.map_values(|d: DiscoveredAsset| disc_key(d)) =~~= out_pre.map_values(
                        |d: DiscoveredAsset| disc_key(d),
                    ).push(disc_key(d)));
                    assert(out@.map_values(|d: DiscoveredAsset| disc_key(d)) =~~= selected_keys(
                        entries@.take(i + 1),
                    ));
                }
            },
            None => {
                proof {
                    reveal_with_fuel(Seq::<_>::filter, 2);
                    assert(!pred(entries@[i as int]));
                    assert(entries@.take(i + 1).filter(pred) =~= entries@.take(i as int).filter(
                        pred,
                    ));
                    assert(out@.map_values(|d: DiscoveredAsset| disc_key(d)) =~= selected_keys(
                        entries@.take(i + 1),
                    ));
                }
            },
        }
    }
    proof {
        assert(entries@.take(n as int) =~= entries@);
    }
    out
}

/// Rewrites the indices so they run 0, 1, 2, ... over the (sorted)
/// sequence, leaving path, name and kind of every position unchanged.
fn reindex(v: Vec<DiscoveredAsset>) -> (out: Vec<DiscoveredAsset>)
    ensures
        out@.len() == v@.len(),
        forall|k: int| 0 <= k < out@.len() ==> #[trigger] out@[k].index == k,
        forall|k: int|
            0 <= k < out@.len() ==> disc_key(#[trigger] out@[k]) == disc_key(v@[k]),
{
    let n = v.len();
    let mut out: Vec<DiscoveredAsset> = Vec::new();
    for k in 0..n
        invariant
            n == v@.len(),
            out@.len() == k,
            forall|x: int| 0 <= x < k ==> #[trigger] out@[x].index == x,
            forall|x: int|
                0 <= x < k ==> disc_key(#[trigger] out@[x]) == disc_key(v@[x]),
    {
        let d = DiscoveredAsset {
            path: String::from_str(v[k].path.as_str()),
            name: String::from_str(v[k].name.as_str()),
            kind: v[k].kind,
            index: k,
        };
        out.push(d);
    }
    out
}

/// Turns one directory walk into the ordered asset list. The caller
/// walks the filesystem and reports whether the root was a directory;
/// everything decided here is verified: hidden entries are skipped,
/// extensions are classified against the fixed table, and the rest is
/// ordered naturally by file name (ties broken by full path) and
/// indexed densely from zero. That index is the stable key every
/// later event uses for the asset.
pub fn discover(root_is_dir: bool, entries: &Vec<FoundFile>) -> (r: Result<
    Vec<DiscoveredAsset>,
    ScanError,
>)
    ensures
        r is Err <==> !root_is_dir || selected_keys(entries@).len() == 0,
        (r matches Err(e) && e == ScanError::NotADirectory) <==> !root_is_dir,
        (r matches Err(e) && e == ScanError::NoSupportedAssets) <==> (root_is_dir
            && selected_keys(entries@).len() == 0),
        r matches Ok(v) ==> {
            &&& v@.len() == selected_keys(entries@).len()
            &&& forall|k: int| 0 <= k < v@.len() ==> #[trigger] v@[k].index == k
            &&& sorted_disc(v@)
            &&& v@.map_values(|d: DiscoveredAsset| disc_key(d)).to_multiset() == selected_keys(
                entries@,
            ).to_multiset()
        },
{
    if !root_is_dir {
        return Err(ScanError::NotADirectory);
    }
    let kept = filter_eligible(entries);
    proof {
        assert(kept@.map_values(|d: DiscoveredAsset| disc_key(d)).len() == selected_keys(
            entries@,
        ).len());
    }
    if kept.len() == 0 {
        return Err(ScanError::NoSupportedAssets);
    }
    let sorted = sort_discovered(kept);
    let out = reindex(sorted);
    proof {
        assert(out@.map_values(|d: DiscoveredAsset| disc_key(d)) =~= sorted@.map_values(
            |d: DiscoveredAsset| disc_key(d),
        ));
        assert forall|i: int, j: int| 0 <= i < j < out@.len() implies disc_le(
            #[trigger] out@[i],
            #[trigger] out@[j],
        ) by {
            assert(disc_le(sorted@[i], sorted@[j]));
        }
    }
    Ok(out)
}

} // verus!

verus! {

/// What the probes handed one asset: a decoded image, an image that
/// could not be decoded, or a video probe whose fields are all
/// best-effort.
pub enum ProbeData {
    ImageFailed { message: String },
    Image { width: u32, height: u32, color_space: Option<String>, thumb_ok: bool },
    Video {
        width: Option<u32>,
        height: Option<u32>,
        codec: Option<String>,
        duration: Option<String>,
        thumb_ok: bool,
    },
}

/// Everything `process_one` needs to know about one asset: identity,
/// stat result and probe result; the probing itself happens outside.
pub struct AssetInput {
    pub filename: String,
    pub ext: String,
    pub kind: AssetKind,
    pub index: usize,
    pub file_size: Option<u64>,
    pub stat_error: String,
    pub probe: ProbeData,
}

/// Exactly one outcome per discovered asset: a finished record, or a
/// failure message; there is no partial record.
pub enum ProcessingOutcome {
    Success(Asset),
    Failure(String),
}

/// The probe variant matches the declared kind.
pub open spec fn input_wf(it: AssetInput) -> bool {
    match it.probe {
        ProbeData::ImageFailed { .. } => it.kind is Image,
        ProbeData::Image { .. } => it.kind is Image,
        ProbeData::Video { .. } => it.kind is Video,
    }
}

/// The failure rule: only a stat failure and an image decode failure
/// are fatal to the single asset; every other mishap, a failed
/// thumbnail write included, degrades to an absent field.
pub open spec fn input_fails(it: AssetInput) -> bool {
    ||| it.file_size is None
    ||| (it.probe matches ProbeData::ImageFailed { .. })
}

/// The message reported for a failing input.
pub open spec fn failure_message(it: AssetInput) -> Seq<char> {
    if it.file_size is None {
        it.stat_error@
    } else {
        match it.probe {
            ProbeData::ImageFailed { message } => message@,
            _ => Seq::empty(),
        }
    }
}

/// The duration grammar: decimal digits, optionally a dot and more
/// digits; the value is the whole-second part, when it fits in `u64`.
pub open spec fn duration_secs_spec(s: Seq<char>) -> Option<u64> {
    let k = crate::natural::digit_run_len(s) as int;
    if k >= 1 && (k == s.len() || (s[k] == '.' && crate::natural::all_digits(s.skip(k + 1))))
        && digits_val(s.take(k)) <= u64::MAX {
        Option::Some(digits_val(s.take(k)) as u64)
    } else {
        Option::None
    }
}

/// The record a successful input produces.
pub open spec fn success_view(it: AssetInput, gen_thumbnails: bool) -> AssetView {
    let base = AssetView {
        filename: it.filename@,
        kind: it.kind,
        width: Option::None,
        height: Option::None,
        file_size: it.file_size.unwrap(),
        format: upper_seq(it.ext@),
        color_space: Option::None,
        duration_secs: Option::None,
        codec: Option::None,
        thumbnail_name: Option::None,
    };
    match it.probe {
        ProbeData::Image { width, height, color_space, thumb_ok } => AssetView {
            width: Option::Some(width),
            height: Option::Some(height),
            color_space: opt_view(color_space),
            thumbnail_name: if gen_thumbnails && thumb_ok {
                Option::Some(thumb_name_spec(it.index as nat))
            } else {
                Option::None
            },
            ..base
        },
        ProbeData::Video { width, height, codec, duration, thumb_ok } => AssetView {
            width,
            height,
            codec: opt_view(codec),
            duration_secs: match duration {
                Option::Some(d) => duration_secs_spec(d@),
                Option::None => Option::None,
            },
            thumbnail_name: if gen_thumbnails && thumb_ok {
                Option::Some(thumb_name_spec(it.index as nat))
            } else {
                Option::None
            },
            ..base
        },
        ProbeData::ImageFailed { .. } => base,
    }
}

/// Parses a probe duration: seconds as decimal digits, optionally
/// followed by a fractional part, truncated to whole seconds.
#[verifier::loop_isolation(false)]
pub fn parse_duration_secs(s: &str) -> (r: Option<u64>)
    ensures
        r == duration_secs_spec(s@),
{
    let v = str_to_chars(s);
    let n = v.len();
    let mut k: usize = 0;
    while k < n && crate::natural::is_digit(v[k])
        invariant
            k <= n,
            forall|x: int| 0 <= x < k ==> is_digit_char(#[trigger] v@[x]),
        decreases n - k,
    {
        k = k + 1;
    }
    proof {
        crate::natural::lemma_digit_run_len_is(s@, k as nat);
    }
    if k == 0 {
        return None;
    }
    if k < n {
        if v[k] != '.' {
            return None;
        }
        let mut j = k + 1;
        while j < n
            invariant
                k + 1 <= j <= n,
                forall|x: int| k + 1 <= x < j ==> is_digit_char(#[trigger] v@[x]),
            decreases n - j,
        {
            if !crate::natural::is_digit(v[j]) {
                proof {
                    assert(!is_digit_char(s@.skip(k + 1)[j - (k + 1)]));
                }
                return None;
            }
            j = j + 1;
        }
        proof {
            assert forall|x: int| 0 <= x < s@.skip(k + 1).len() implies is_digit_char(
                #[trigger] s@.skip(k + 1)[x],
            ) by {
                assert(s@.skip(k + 1)[x] == v@[x + k + 1]);
            }
        }
    }
    let ghost whole = s@.take(k as int);
    let mut val: u64 = 0;
    let mut m: usize = 0;
    while m < k
        invariant
            m <= k,
            val == digits_val(s@.take(m as int)),
        decreases k - m,
    {
        let c = v[m];
        proof {
            assert(is_digit_char(c));
            assert(('0' <= c) == (('0' as int) <= (c as int)));
            assert((c <= '9') == ((c as int) <= ('9' as int)));
        }
        let d: u64 = (c as u32 - 48) as u64;
        proof {
            assert(d == digit_val(c));
        }
        if val > (u64::MAX - d) / 10 {
            proof {
                assert(digits_val(s@.take(m + 1)) == val * 10 + d) by {
                    assert(s@.take(m + 1).drop_last() =~= s@.take(m as int));
                    assert(s@.take(m + 1).last() == c);
                }
                assert(val * 10 + d > u64::MAX) by (nonlinear_arith)
                    requires
                        val > (u64::MAX - d) / 10,
                        d <= 9,
                ;
                crate::natural::lemma_digits_val_prefix(whole, m + 1);
                assert(whole.take(m + 1) =~= s@.take(m + 1));
                assert(digits_val(whole) > u64::MAX);
            }
            return None;
        }
        proof {
            assert(val * 10 + d <= u64::MAX) by (nonlinear_arith)
                requires
                    val <= (u64::MAX - d) / 10,
                    d <= 9,
            ;
            assert(digits_val(s@.take(m + 1)) == val * 10 + d) by {
                assert(s@.take(m + 1).drop_last() =~= s@.take(m as int));
                assert(s@.take(m + 1).last() == c);
            }
        }
        val = val * 10 + d;
        m = m + 1;
    }
    proof {
        assert(s@.take(k as int) =~= whole);
    }
    Some(val)
}

} // verus!

verus! {

fn opt_str_copy(o: &Option<String>) -> (r: Option<String>)
    ensures
        opt_view(r) == opt_view(*o),
{
    match o {
        None => None,
        Some(s) => Some(String::from_str(s.as_str())),
    }
}

/// Turns one probed asset into its outcome. Only a stat failure and
/// an image decode failure fail the asset; everything else, a failed
/// thumbnail write included, degrades to absent fields.
pub fn process_one(input: &AssetInput, gen_thumbnails: bool) -> (r: ProcessingOutcome)
    requires
        input_wf(*input),
    ensures
        (r is Failure) == input_fails(*input),
        r matches ProcessingOutcome::Failure(m) ==> m@ == failure_message(*input),
        r matches ProcessingOutcome::Success(a) ==> a@ == success_view(*input, gen_thumbnails),
{
    let file_size: u64 = match &input.file_size {
        None => {
            return ProcessingOutcome::Failure(String::from_str(input.stat_error.as_str()));
        },
        Some(n) => *n,
    };
    let filename = String::from_str(input.filename.as_str());
    let format = to_ascii_upper(input.ext.as_str());
    match &input.probe {
        ProbeData::ImageFailed { message } => {
            ProcessingOutcome::Failure(String::from_str(message.as_str()))
        },
        ProbeData::Image { width, height, color_space, thumb_ok } => {
            let a = Asset {
                filename,
                kind: input.kind,
                width: Some(*width),
                height: Some(*height),
                file_size,
                format,
                color_space: opt_str_copy(color_space),
                duration_secs: None,
                codec: None,
                thumbnail_name: if gen_thumbnails && *thumb_ok {
                    Some(thumb_name(input.index))
                } else {
                    None
                },
            };
            ProcessingOutcome::Success(a)
        },
        ProbeData::Video { width, height, codec, duration, thumb_ok } => {
            let duration_secs: Option<u64> = match duration {
                Some(d) => parse_duration_secs(d.as_str()),
                None => None,
            };
            let a = Asset {
                filename,
                kind: input.kind,
                width: *width,
                height: *height,
                file_size,
                format,
                color_space: None,
                duration_secs,
                codec: opt_str_copy(codec),
                thumbnail_name: if gen_thumbnails && *thumb_ok {
                    Some(thumb_name(input.index))
                } else {
                    None
                },
            };
            ProcessingOutcome::Success(a)
        },
    }
}

} // verus!

verus! {

/// The record ordering in batch output: natural order on file names;
/// records with equal names may come in any order.
pub open spec fn rec_le(x: AssetView, y: AssetView) -> bool {
    nat_cmp(x.filename, y.filename) <= 0
}

pub open spec fn sorted_rec(s: Seq<Asset>) -> bool {
    forall|i: int, j: int| 0 <= i < j < s.len() ==> rec_le(#[trigger] s[i]@, #[trigger] s[j]@)
}

/// Inserts a record into an already sorted vector, keeping it sorted.
#[verifier::loop_isolation(false)]
fn insert_record(out: &mut Vec<Asset>, x: Asset)
    requires
        sorted_rec(old(out)@),
    ensures
        final(out)@.len() == old(out)@.len() + 1,
        sorted_rec(final(out)@),
        final(out)@.map_values(|a: Asset| a@).to_multiset() == old(out)@.map_values(
            |a: Asset| a@,
        ).to_multiset().insert(x@),
{
    let ghost s0 = out@;
    let mut p: usize = 0;
    while p < out.len() && natural_compare(out[p].filename.as_str(), x.filename.as_str()) <= 0
        invariant
            p <= out@.len(),
            forall|k: int| 0 <= k < p ==> rec_le(#[trigger] out@[k]@, x@),
        decreases out@.len() - p,
    {
        p = p + 1;
    }
    proof {
        if p < out@.len() {
            crate::natural::lemma_nat_cmp_antisym(out@[p as int].filename@, x.filename@);
            assert forall|k: int| p <= k < out@.len() implies rec_le(x@, #[trigger] out@[k]@) by {
                if k > p {
                    assert(rec_le(out@[p as int]@, out@[k]@));
                    crate::natural::lemma_nat_cmp_trans(
                        x.filename@,
                        out@[p as int].filename@,
                        out@[k].filename@,
                    );
                }
            }
        }
    }
    out.insert(p, x);
    proof {
        let s1 = out@;
        assert forall|i: int, j: int| 0 <= i < j < s1.len() implies rec_le(
            #[trigger] s1[i]@,
            #[trigger] s1[j]@,
        ) by {
            if j < p {
                assert(s1[i] == s0[i] && s1[j] == s0[j]);
            } else if i > p {
                assert(s1[i] == s0[i - 1] && s1[j] == s0[j - 1]);
            } else if i < p && j == p {
                assert(s1[i] == s0[i] && s1[j] == x);
            } else if i == p {
                assert(s1[i] == x && s1[j] == s0[j - 1]);
            } else {
                assert(s1[i] == s0[i] && s1[j] == s0[j - 1]);
            }
        }
        lemma_insert_multiset(s0.map_values(|a: Asset| a@), p as int, x@);
        assert(s1.map_values(|a: Asset| a@) =~= s0.map_values(|a: Asset| a@).insert(
            p as int,
            x@,
        ));
    }
}

/// Sorts finished records into natural file-name order.
#[verifier::loop_isolation(false)]
pub fn sort_records(v: Vec<Asset>) -> (out: Vec<Asset>)
    ensures
        out@.len() == v@.len(),
        sorted_rec(out@),
        out@.map_values(|a: Asset| a@).to_multiset() == v@.map_values(|a: Asset| a@).to_multiset(),
{
    broadcast use vstd::seq_lib::group_to_multiset_ensures;

    let ghost v0 = v@;
    let mut v = v;
    let mut out: Vec<Asset> = Vec::new();
    while v.len() > 0
        invariant
            sorted_rec(out@),
            out@.len() + v@.len() == v0.len(),
            out@.map_values(|a: Asset| a@).to_multiset().add(
                v@.map_values(|a: Asset| a@).to_multiset(),
            ) == v0.map_values(|a: Asset| a@).to_multiset(),
        decreases v@.len(),
    {
        let ghost vpre = v@;
        let x = v.pop().unwrap();
        proof {
            assert(vpre =~= v@.push(x));
            assert(vpre.map_values(|a: Asset| a@) =~= v@.map_values(|a: Asset| a@).push(x@));
        }
        insert_record(&mut out, x);
        proof {
            assert(out@.map_values(|a: Asset| a@).to_multiset().add(
                v@.map_values(|a: Asset| a@).to_multiset(),
            ) =~= v0.map_values(|a: Asset| a@).to_multiset());
        }
    }
    proof {
        assert(v@.map_values(|a: Asset| a@).to_multiset() =~= Multiset::<AssetView>::empty());
        assert(out@.map_values(|a: Asset| a@).to_multiset() =~= v0.map_values(
            |a: Asset| a@,
        ).to_multiset());
    }
    out
}

/// Splitting a sequence by a predicate conserves its length.
pub proof fn lemma_filter_complement<A>(s: Seq<A>, p: spec_fn(A) -> bool, q: spec_fn(A) -> bool)
    requires
        forall|x: A| #[trigger] q(x) == !p(x),
    ensures
        s.filter(p).len() + s.filter(q).len() == s.len(),
    decreases s.len(),
{
    reveal_with_fuel(Seq::<_>::filter, 2);
    if s.len() > 0 {
        lemma_filter_complement(s.drop_last(), p, q);
    }
}

} // verus!

verus! {

/// Processes a whole batch: one outcome per input, failures isolated
/// per item, successful records returned in natural file-name order
/// and failure messages in input order. The counts always conserve:
/// records plus messages equal inputs.
#[verifier::loop_isolation(false)]
pub fn process_all(items: &Vec<AssetInput>, gen_thumbnails: bool) -> (r: (Vec<Asset>, Vec<String>))
    requires
        forall|k: int| 0 <= k < items@.len() ==> input_wf(#[trigger] items@[k]),
    ensures
        r.0@.len() + r.1@.len() == items@.len(),
        r.0@.len() == items@.filter(|it: AssetInput| !input_fails(it)).len(),
        r.1@.len() == items@.filter(|it: AssetInput| input_fails(it)).len(),
        sorted_rec(r.0@),
        r.0@.map_values(|a: Asset| a@).to_multiset() == items@.filter(
            |it: AssetInput| !input_fails(it),
        ).map_values(|it: AssetInput| success_view(it, gen_thumbnails)).to_multiset(),
        r.1@.map_values(|s: String| s@) == items@.filter(
            |it: AssetInput| input_fails(it),
        ).map_values(|it: AssetInput| failure_message(it)),
{
    let ghost pf = |it: AssetInput| input_fails(it);
    let ghost po = |it: AssetInput| !input_fails(it);
    let mut recs: Vec<Asset> = Vec::new();
    let mut errs: Vec<String> = Vec::new();
    let n = items.len();
    proof {
        reveal_with_fuel(Seq::<_>::filter, 2);
        assert(items@.take(0) =~= Seq::<AssetInput>::empty());
        assert(recs@.map_values(|a: Asset| a@) =~= items@.take(0).filter(po).map_values(
            |it: AssetInput| success_view(it, gen_thumbnails),
        ));
        assert(errs@.map_values(|s: String| s@) =~= items@.take(0).filter(pf).map_values(
            |it: AssetInput| failure_message(it),
        ));
    }
    for i in 0..n
        invariant
            n == items@.len(),
            recs@.len() + errs@.len() == i,
            recs@.map_values(|a: Asset| a@) == items@.take(i as int).filter(po).map_values(
                |it: AssetInput| success_view(it, gen_thumbnails),
            ),
            errs@.map_values(|s: String| s@) == items@.take(i as int).filter(pf).map_values(
                |it: AssetInput| failure_message(it),
            ),
    {
        let outcome = process_one(&items[i], gen_thumbnails);
        proof {
            reveal_with_fuel(Seq::<_>::filter, 2);
            assert(items@.take(i + 1).drop_last() =~= items@.take(i as int));
            assert(items@.take(i + 1).last() == items@[i as int]);
        }
        match outcome {
            ProcessingOutcome::Success(a) => {
                let ghost rpre = recs@;
                recs.push(a);
                proof {
                    reveal_with_fuel(Seq::<_>::filter, 2);
                    assert(po(items@[i as int]));
                    assert(items@.take(i + 1).filter(po) =~= items@.take(i as int).filter(po).push(
                        items@[i as int],
                    ));
                    assert(items@.take(i + 1).filter(pf) =~= items@.take(i as int).filter(pf));
                    assert(recs@.map_values(|a: Asset| a@) =~~= rpre.map_values(
                        |a: Asset| a@,
                    ).push(a@));
                    assert(recs@.map_values(|a: Asset| a@) =~~= items@.take(i + 1).filter(
                        po,
                    ).map_values(|it: AssetInput| success_view(it, gen_thumbnails)));
                    assert(errs@.map_values(|s: String| s@) =~~= items@.take(i + 1).filter(
                        pf,
                    ).map_values(|it: AssetInput| failure_message(it)));
                }
            },
            ProcessingOutcome::Failure(m) => {
                let ghost epre = errs@;
                errs.push(m);
                proof {
                    reveal_with_fuel(Seq::<_>::filter, 2);
                    assert(pf(items@[i as int]));
                    assert(items@.take(i + 1).filter(pf) =~= items@.take(i as int).filter(pf).push(
                        items@[i as int],
                    ));
                    assert(items@.take(i + 1).filter(po) =~= items@.take(i as int).filter(po));
                    assert(errs@.map_values(|s: String| s@) =~~= epre.map_values(
                        |s: String| s@,
                    ).push(m@));
                    assert(errs@.map_values(|s: String| s@) =~~= items@.take(i + 1).filter(
                        pf,
                    ).map_values(|it: AssetInput| failure_message(it)));
                    assert(recs@.map_values(|a: Asset| a@) =~~= items@.take(i + 1).filter(
                        po,
                    ).map_values(|it: AssetInput| success_view(it, gen_thumbnails)));
                }
            },
        }
    }
    proof {
        assert(items@.take(n as int) =~= items@);
        lemma_filter_complement(items@, po, pf);
    }
    let sorted = sort_records(recs);
    (sorted, errs)
}

} // verus!

verus! {

/// How to correct a stored image for an embedded orientation tag:
/// quarter turns clockwise first, then the horizontal flip.
#[derive(Clone, Copy, Debug, PartialEq, Eq, Structural)]
pub struct Orient {
    pub quarter_turns: u8,
    pub flip_h: bool,
    pub flip_v: bool,
}

/// The orientation table: tag 2 flips horizontally, 3 turns half way
/// round, 4 flips vertically, 5 to 8 combine a quarter turn with a
/// flip; 1, 0 and unreadable tags leave the image alone.
pub fn orientation_ops(tag: u32) -> (r: Orient)
    ensures
        tag == 2 ==> r == (Orient { quarter_turns: 0, flip_h: true, flip_v: false }),
        tag == 3 ==> r == (Orient { quarter_turns: 2, flip_h: false, flip_v: false }),
        tag == 4 ==> r == (Orient { quarter_turns: 0, flip_h: false, flip_v: true }),
        tag == 5 ==> r == (Orient { quarter_turns: 1, flip_h: true, flip_v: false }),
        tag == 6 ==> r == (Orient { quarter_turns: 1, flip_h: false, flip_v: false }),
        tag == 7 ==> r == (Orient { quarter_turns: 3, flip_h: true, flip_v: false }),
        tag == 8 ==> r == (Orient { quarter_turns: 3, flip_h: false, flip_v: false }),
        !(2 <= tag <= 8) ==> r == (Orient { quarter_turns: 0, flip_h: false, flip_v: false }),
        r.quarter_turns < 4,
        !(r.flip_h && r.flip_v),
{
    match tag {
        2 => Orient { quarter_turns: 0, flip_h: true, flip_v: false },
        3 => Orient { quarter_turns: 2, flip_h: false, flip_v: false },
        4 => Orient { quarter_turns: 0, flip_h: false, flip_v: true },
        5 => Orient { quarter_turns: 1, flip_h: true, flip_v: false },
        6 => Orient { quarter_turns: 1, flip_h: false, flip_v: false },
        7 => Orient { quarter_turns: 3, flip_h: true, flip_v: false },
        8 => Orient { quarter_turns: 3, flip_h: false, flip_v: false },
        _ => Orient { quarter_turns: 0, flip_h: false, flip_v: false },
    }
}

} // verus!
